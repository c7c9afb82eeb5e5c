//! A connection to the server with named containers, from its first frame to its end.

use crate::auth::{can_come_to, checked_now, checked_view, validate_jwt_claims, Claims, ClaimsView};
use crate::collections::{lemma_take_one_more, texts, StrSet};
use crate::connection::{first_fault, first_message, one_less, one_more, FirstFrame, Frame, Incoming};
use crate::room_hub::{clients_of, with_clients, ClientInfo, WsHub, MAX_WS_CLIENTS_PER_ROOM};
use crate::state::{error_text, granted, room_subject, AppState, AppView, RoomSnapshot};
use crate::state_laws::law_token_grants;
use crate::text::{chars_of, decimal, lemma_u64_round_trip, parse_u64, u64_of_text};
use crate::tokens::optional_texts;
use crate::wire::{
    auth_error, auth_error_detail_text, auth_error_text, auth_error_with_detail,
    auth_ok_state_text, auth_ok_with_state, container_snapshot_text,
};
use vstd::prelude::*;
use vstd::string::*;

verus! {

// ---------------------------------------------------------------------------
// The first frame
// ---------------------------------------------------------------------------

pub open spec fn with_auth_failure(s: AppView) -> AppView {
    AppView { ws_auth_failure: (s.ws_auth_failure + 1) as u64, ..s }
}

pub open spec fn with_auth_success(s: AppView) -> AppView {
    AppView { ws_auth_success: (s.ws_auth_success + 1) as u64, ..s }
}

/// Reads the token from the first frame, or answers what is wrong with it.
pub fn read_first_frame(app: &mut AppState, first: FirstFrame) -> (r: Result<String, String>)
    requires
        old(app)@.ws_auth_failure < u64::MAX,
    ensures
        match first_fault(first) {
            Some(reason) => final(app)@ == with_auth_failure(old(app)@) && match r {
                Ok(_) => false,
                Err(reply) => reply@ == auth_error_text(reason),
            },
            None => final(app)@ == old(app)@ && match r {
                Ok(jwt) => first matches FirstFrame::Message(message) && jwt == message.jwt,
                Err(_) => false,
            },
        },
{
    let message: Result<String, String> = first_message(first);
    if message.is_err() {
        app.ws_auth_failure = app.ws_auth_failure + 1;
    }
    message
}

// ---------------------------------------------------------------------------
// Admission
// ---------------------------------------------------------------------------

/// The containers that a client may see, by those that its token grants: the public one is
/// always among them, the one of the server never.
pub open spec fn allowed_containers(granted: Option<Seq<Seq<char>>>) -> Set<Seq<char>> {
    let named = match granted {
        Some(names) => names.to_set(),
        None => Set::empty(),
    };
    named.insert("public"@).remove("server_only"@)
}

pub(crate) fn allow_containers(granted: &Option<Vec<String>>) -> (r: StrSet)
    ensures
        r@ == allowed_containers(optional_texts(*granted)),
{
    let mut allowed: StrSet = StrSet::new();
    if let Some(names) = granted {
        let ghost all = texts(names@);
        let mut i: usize = 0;
        assert(allowed@ =~= all.take(0).to_set());
        while i < names.len()
            invariant
                i <= names@.len(),
                all == texts(names@),
                allowed@ == all.take(i as int).to_set(),
            decreases names@.len() - i,
        {
            allowed.insert(names[i].as_str());
            proof {
                lemma_take_one_more(all, i as int);
            }
            i = i + 1;
        }
        assert(all.take(i as int) =~= all);
    }
    allowed.insert("public");
    allowed.remove("server_only");
    allowed
}

/// What a first message comes to: the client is let into a room or not.
pub enum Opening {
    Refused { reply: String },
    Accepted { room_id: u64, allowed: StrSet, reply: String },
}

pub ghost enum OpeningView {
    Refused { reply: Seq<char> },
    Accepted { room_id: u64, allowed: Set<Seq<char>>, reply: Seq<char> },
}

impl View for Opening {
    type V = OpeningView;

    open spec fn view(&self) -> OpeningView {
        match *self {
            Opening::Refused { reply } => OpeningView::Refused { reply: reply@ },
            Opening::Accepted { room_id, allowed, reply } => OpeningView::Accepted {
                room_id,
                allowed: allowed@,
                reply: reply@,
            },
        }
    }
}

/// What good claims come to.
pub open spec fn admission(s: AppView, claims: ClaimsView) -> OpeningView {
    match u64_of_text(claims.room) {
        None => OpeningView::Refused { reply: auth_error_text("invalid_room_claim"@) },
        Some(room_id) => match s.refusal(room_id) {
            Some(e) => OpeningView::Refused { reply: auth_error_text(error_text(e)) },
            None => {
                let allowed = allowed_containers(claims.containers);
                OpeningView::Accepted {
                    room_id,
                    allowed,
                    reply: auth_ok_state_text(
                        s.rooms[room_id].room_counter,
                        container_snapshot_text(s.rooms[room_id].snapshot(allowed)),
                    ),
                }
            },
        },
    }
}

/// The state after a token was checked, and what the client is told, given what the check
/// came to.
pub open spec fn opening(s: AppView, claims: Result<ClaimsView, Seq<char>>) -> (
    AppView,
    OpeningView,
) {
    match claims {
        Ok(claims) => (with_auth_success(s), admission(s, claims)),
        Err(reason) => (
            with_auth_failure(s),
            OpeningView::Refused { reply: auth_error_detail_text("invalid_jwt"@, reason) },
        ),
    }
}

/// Lets a client into its room or not, given what the check of its token came to.
pub fn admit_client(app: &mut AppState, claims: Result<Claims, String>) -> (r: Opening)
    requires
        old(app)@.ws_auth_failure < u64::MAX,
        old(app)@.ws_auth_success < u64::MAX,
    ensures
        (final(app)@, r@) == opening(old(app)@, checked_view(claims)),
{
    let claims: Claims = match claims {
        Ok(claims) => claims,
        Err(reason) => {
            app.ws_auth_failure = app.ws_auth_failure + 1;
            return Opening::Refused {
                reply: auth_error_with_detail("invalid_jwt", reason.as_str()),
            };
        },
    };
    app.ws_auth_success = app.ws_auth_success + 1;
    let digits: Vec<char> = chars_of(claims.room.as_str());
    let room_id: u64 = match parse_u64(digits.as_slice()) {
        Some(room_id) => room_id,
        None => {
            return Opening::Refused { reply: auth_error("invalid_room_claim") };
        },
    };
    let counter: u64 = match app.room_version(room_id) {
        Ok(counter) => counter,
        Err(e) => {
            return Opening::Refused { reply: auth_error(e.to_text().as_str()) };
        },
    };
    let allowed: StrSet = allow_containers(&claims.containers);
    let snapshot: RoomSnapshot = match app.room_snapshot(room_id, &allowed) {
        Some(snapshot) => snapshot,
        None => {
            return Opening::Refused { reply: auth_error("room_not_found") };
        },
    };
    let state: String = snapshot.to_text();
    let reply: String = auth_ok_with_state(counter, state.as_str());
    Opening::Accepted { room_id, allowed, reply }
}

/// Whether a token was checked and the client dealt with accordingly.
pub open spec fn opened(
    before: AppView,
    jwt: Seq<char>,
    claims: Result<ClaimsView, Seq<char>>,
    after: AppView,
    r: OpeningView,
) -> bool {
    &&& can_come_to(before.jwt_key, before.jwt_issuer, before.jwt_audience, jwt, claims)
    &&& (after, r) == opening(before, claims)
}

/// Checks the token of a client now, and lets it into its room or not. Whether the token is
/// still good rests on the clock.
pub fn open_connection(app: &mut AppState, jwt: &str) -> (r: Opening)
    requires
        old(app)@.ws_auth_failure < u64::MAX,
        old(app)@.ws_auth_success < u64::MAX,
    ensures
        exists|claims: Result<ClaimsView, Seq<char>>| #[trigger]
            opened(old(app)@, jwt@, claims, final(app)@, r@),
        exists|claims: Result<Claims, String>|
            #![trigger checked_view(claims)]
            checked_now(
                old(app)@.jwt_key,
                old(app)@.jwt_issuer,
                old(app)@.jwt_audience,
                jwt,
                claims,
            ) && opened(old(app)@, jwt@, checked_view(claims), final(app)@, r@),
{
    let key: Option<&str> = as_str(&app.jwt_key);
    let issuer: Option<&str> = as_str(&app.jwt_issuer);
    let audience: Option<&str> = as_str(&app.jwt_audience);
    let claims: Result<Claims, String> = validate_jwt_claims(key, issuer, audience, jwt);
    let ghost checked = claims;
    assert(call_ensures(validate_jwt_claims, (key, issuer, audience, jwt), checked));
    let r: Opening = admit_client(app, claims);
    assert(opened(old(app)@, jwt@, checked_view(checked), app@, r@));
    r
}

pub(crate) fn as_str(text: &Option<String>) -> (r: Option<&str>)
    ensures
        match (*text, r) {
            (Some(a), Some(b)) => a@ == b@,
            (None, None) => true,
            _ => false,
        },
{
    match text {
        Some(text) => Some(text.as_str()),
        None => None,
    }
}

// ---------------------------------------------------------------------------
// The stay
// ---------------------------------------------------------------------------

/// Adds a client that was told that it is let in. Where the room is full, the client is
/// told so.
pub fn join(
    app: &mut AppState,
    hub: &mut WsHub,
    client_id: &str,
    room_id: u64,
    allowed: StrSet,
) -> (r: Result<(), String>)
    ensures
        ({
            let clients = clients_of(old(hub)@, room_id);
            match r {
                Ok(_) => {
                    &&& clients.dom().len() < MAX_WS_CLIENTS_PER_ROOM
                    &&& final(hub)@ == old(hub)@.insert(
                        room_id,
                        clients.insert(client_id@, allowed@),
                    )
                    &&& final(app)@ == (AppView {
                        total_ws_connections: one_more(
                            old(app)@.total_ws_connections as int,
                            usize::MAX as int,
                        ) as usize,
                        ..old(app)@
                    })
                },
                Err(reply) => {
                    &&& clients.dom().len() >= MAX_WS_CLIENTS_PER_ROOM
                    &&& reply@ == auth_error_text("room_client_limit_exceeded"@)
                    &&& final(hub)@ == old(hub)@
                    &&& final(app)@ == old(app)@
                },
            }
        }),
{
    match hub.add_client(room_id, client_id, ClientInfo { allowed_containers: allowed }) {
        Ok(_) => {
            if app.total_ws_connections < usize::MAX {
                app.total_ws_connections = app.total_ws_connections + 1;
            }
            Ok(())
        },
        Err(reason) => Err(auth_error(reason)),
    }
}

/// What is done about what came in.
#[derive(Debug)]
pub enum StreamAction {
    SendPong(Vec<u8>),
    /// Close the connection and stop.
    Close,
    /// Send the text and stop.
    Refuse(String),
    Ignore,
    Stop,
}

/// Decides what is done about what a client that was let in sends: it has nothing to say.
pub fn on_incoming(incoming: Incoming) -> (r: StreamAction)
    ensures
        match incoming {
            Incoming::Frame(Frame::Ping(payload)) => r == StreamAction::SendPong(payload),
            Incoming::Frame(Frame::Pong) => r is Ignore,
            Incoming::Frame(Frame::Close) => r is Close,
            Incoming::Frame(Frame::Text(_)) | Incoming::Frame(Frame::Binary(_)) => r matches
                StreamAction::Refuse(reply) && reply@ == auth_error_text(
                "unexpected_message_after_auth"@,
            ),
            Incoming::Frame(Frame::Other) => r is Ignore,
            Incoming::Failed | Incoming::Ended => r is Stop,
        },
{
    match incoming {
        Incoming::Frame(Frame::Ping(payload)) => StreamAction::SendPong(payload),
        Incoming::Frame(Frame::Close) => StreamAction::Close,
        Incoming::Frame(Frame::Text(_)) | Incoming::Frame(Frame::Binary(_)) =>
            StreamAction::Refuse(auth_error("unexpected_message_after_auth")),
        Incoming::Frame(Frame::Pong) | Incoming::Frame(Frame::Other) => StreamAction::Ignore,
        Incoming::Failed | Incoming::Ended => StreamAction::Stop,
    }
}

/// Counts an event that could not be sent; the connection then stops.
pub fn note_send_error(app: &mut AppState)
    ensures
        final(app)@ == (AppView {
            ws_send_errors: one_more(old(app)@.ws_send_errors as int, u64::MAX as int) as u64,
            ..old(app)@
        }),
{
    if app.ws_send_errors < u64::MAX {
        app.ws_send_errors = app.ws_send_errors + 1;
    }
}

/// A number with others added, as far as numbers go.
pub open spec fn and_more(n: u64, more: u64) -> u64 {
    if n + more <= u64::MAX {
        (n + more) as u64
    } else {
        u64::MAX
    }
}

/// Counts the clients that could not take an update: those that had too many lately, and
/// those whose queue was full.
pub fn note_broadcast(app: &mut AppState, rate_limited: u64, full: u64)
    ensures
        final(app)@ == (AppView {
            ws_update_rate_limited: and_more(old(app)@.ws_update_rate_limited, rate_limited),
            ws_update_dropped: and_more(old(app)@.ws_update_dropped, full),
            ..old(app)@
        }),
{
    app.ws_update_rate_limited = app.ws_update_rate_limited.saturating_add(rate_limited);
    app.ws_update_dropped = app.ws_update_dropped.saturating_add(full);
}

/// The state after a connection that lasted for the given time has ended.
pub open spec fn after_leaving(s: AppView, elapsed_ns: u128) -> AppView {
    AppView {
        total_ws_connections: one_less(s.total_ws_connections as int) as usize,
        ws_connection_latency_ns_total: if s.ws_connection_latency_ns_total + elapsed_ns
            <= u128::MAX {
            (s.ws_connection_latency_ns_total + elapsed_ns) as u128
        } else {
            u128::MAX
        },
        ws_connection_count: (s.ws_connection_count + 1) as u64,
        ..s
    }
}

/// Takes out a client whose connection has ended.
pub fn leave(
    app: &mut AppState,
    hub: &mut WsHub,
    client_id: &str,
    room_id: u64,
    elapsed_ns: u128,
)
    requires
        old(app)@.ws_connection_count < u64::MAX,
    ensures
        final(hub)@ == (if old(hub)@.contains_key(room_id) {
            with_clients(old(hub)@, room_id, old(hub)@[room_id].remove(client_id@))
        } else {
            old(hub)@
        }),
        final(app)@ == after_leaving(old(app)@, elapsed_ns),
{
    hub.remove_client(room_id, client_id);
    if app.total_ws_connections > 0 {
        app.total_ws_connections = app.total_ws_connections - 1;
    }
    app.ws_connection_latency_ns_total = if u128::MAX - app.ws_connection_latency_ns_total
        >= elapsed_ns {
        app.ws_connection_latency_ns_total + elapsed_ns
    } else {
        u128::MAX
    };
    app.ws_connection_count = app.ws_connection_count + 1;
}

// ---------------------------------------------------------------------------
// Laws
// ---------------------------------------------------------------------------

/// Whatever a token grants, a client may see the public container and never the one of the
/// server.
pub proof fn law_server_only_is_never_allowed(granted: Option<Seq<Seq<char>>>)
    ensures
        allowed_containers(granted).contains("public"@),
        !allowed_containers(granted).contains("server_only"@),
{
    reveal_strlit("public");
    reveal_strlit("server_only");
    assert("public"@.len() != "server_only"@.len());
}

/// Every check of a token is counted once, as a success or as a failure, and changes
/// nothing else.
pub proof fn law_every_check_counts_once(s: AppView, claims: Result<ClaimsView, Seq<char>>)
    requires
        s.ws_auth_failure < u64::MAX,
        s.ws_auth_success < u64::MAX,
    ensures
        ({
            let after = opening(s, claims).0;
            &&& after.ws_auth_success + after.ws_auth_failure == s.ws_auth_success
                + s.ws_auth_failure + 1
            &&& after == (AppView {
                ws_auth_success: after.ws_auth_success,
                ws_auth_failure: after.ws_auth_failure,
                ..s
            })
        }),
{
}

/// A client is let only into a room that can be worked on, and only with claims that name it.
pub proof fn law_only_claims_open_a_room(s: AppView, claims: Result<ClaimsView, Seq<char>>)
    ensures
        opening(s, claims).1 matches OpeningView::Accepted { room_id, allowed, .. } ==> {
            &&& claims matches Ok(c)
            &&& u64_of_text(c.room) == Some(room_id)
            &&& allowed == allowed_containers(c.containers)
            &&& s.refusal(room_id) is None
        },
{
}

/// A client that leaves is gone: the clients of all rooms are as they were before it came.
pub proof fn law_leaving_undoes_joining(
    hub: Map<u64, Map<Seq<char>, Set<Seq<char>>>>,
    room_id: u64,
    client_id: Seq<char>,
    allowed: Set<Seq<char>>,
)
    requires
        crate::room_hub::valid(hub),
        !clients_of(hub, room_id).contains_key(client_id),
    ensures
        ({
            let joined = hub.insert(room_id, clients_of(hub, room_id).insert(client_id, allowed));
            with_clients(joined, room_id, joined[room_id].remove(client_id)) == hub
        }),
{
    let clients = clients_of(hub, room_id);
    let joined = hub.insert(room_id, clients.insert(client_id, allowed));
    assert(joined[room_id].remove(client_id) =~= clients);
    if hub.contains_key(room_id) {
        assert(clients.dom() != Set::<Seq<char>>::empty());
        assert(joined.insert(room_id, clients) =~= hub);
    } else {
        assert(clients.dom() =~= Set::<Seq<char>>::empty());
        assert(joined.remove(room_id) =~= hub);
    }
}

/// The claims of a token that was issued for a room let their bearer into that room, with
/// the containers that were granted and the public one.
pub proof fn law_issued_tokens_open_their_room(
    s: AppView,
    id: u64,
    containers: Seq<Seq<char>>,
    exp: u64,
)
    requires
        s.refusal(id) is None,
        !containers.contains("server_only"@),
    ensures
        ({
            let claims = ClaimsView {
                sub: room_subject(decimal(id as nat)),
                room: decimal(id as nat),
                containers: Some(granted(containers)),
                exp,
            };
            admission(s, claims) matches OpeningView::Accepted { room_id, allowed, .. } && room_id
                == id && allowed == containers.to_set().insert("public"@)
        }),
{
    lemma_u64_round_trip(id);
    law_token_grants(containers);
    let allowed = allowed_containers(Some(granted(containers)));
    reveal_strlit("public");
    reveal_strlit("server_only");
    assert("public"@.len() != "server_only"@.len());
    assert forall|c: Seq<char>| allowed.contains(c) == containers.to_set().insert(
        "public"@,
    ).contains(c) by {
        assert(granted(containers).to_set().contains(c) == granted(containers).contains(c));
    }
    assert(allowed =~= containers.to_set().insert("public"@));
}

} // verus!
