//! A connection to the server with numbered buckets by a token that grants named
//! containers, from its first frame to its end.

use crate::auth::{can_come_to, checked_now, checked_view, validate_jwt_claims, Claims, ClaimsView};
use crate::collections::{ascending, lemma_take_one_more, texts, IdMap, StrSet};
use crate::commands::Commands;
use crate::connection::{first_fault, first_message, one_less, one_more, FirstFrame, Frame, Incoming};
use crate::hub::{HubView, WsHub};
use crate::json::{byte_array_text, value_of_text, Value};
use crate::kernel_state::{error_text, AppState, AppView, RoomSnapshot, SERVER_ONLY_BUCKET_ID};
use crate::persistence::{id_behind, parse_id_behind};
use crate::room_connection::{allow_containers, allowed_containers, as_str};
use crate::text::{chars_of, parse_u64, same, u64_of_text};
use crate::wire::{
    auth_error, auth_error_detail_text, auth_error_text, auth_error_with_detail,
    auth_ok_state_text, auth_ok_with_state, bucket_snapshot_text,
};
use std::collections::HashSet;
use vstd::prelude::*;
use vstd::string::*;

verus! {

broadcast use vstd::std_specs::hash::group_hash_axioms;

// ---------------------------------------------------------------------------
// The first frame
// ---------------------------------------------------------------------------

pub open spec fn with_auth_failure(s: AppView) -> AppView {
    AppView { ws_auth_failure: (s.ws_auth_failure + 1) as u64, ..s }
}

pub open spec fn with_auth_success(s: AppView) -> AppView {
    AppView { ws_auth_success: (s.ws_auth_success + 1) as u64, ..s }
}

/// Reads the token from the first frame, or answers what is wrong with it.
pub fn read_first_frame(app: &mut AppState, first: FirstFrame) -> (r: Result<String, String>)
    requires
        old(app)@.ws_auth_failure < u64::MAX,
    ensures
        match first_fault(first) {
            Some(reason) => final(app)@ == with_auth_failure(old(app)@) && match r {
                Ok(_) => false,
                Err(reply) => reply@ == auth_error_text(reason),
            },
            None => final(app)@ == old(app)@ && match r {
                Ok(jwt) => first matches FirstFrame::Message(message) && jwt == message.jwt,
                Err(_) => false,
            },
        },
{
    let message: Result<String, String> = first_message(first);
    if message.is_err() {
        app.ws_auth_failure = app.ws_auth_failure + 1;
    }
    message
}

// ---------------------------------------------------------------------------
// From containers to buckets
// ---------------------------------------------------------------------------

/// Whether a bucket is the first with a label.
pub open spec fn is_first_labelled(labels: Map<u64, Seq<char>>, label: Seq<char>, id: u64) -> bool {
    &&& labels.contains_key(id)
    &&& labels[id] == label
    &&& forall|other: u64| #[trigger]
        labels.contains_key(other) && labels[other] == label ==> id <= other
}

/// The first bucket with a label, if there is any.
pub open spec fn first_labelled(labels: Map<u64, Seq<char>>, label: Seq<char>) -> Option<u64> {
    if exists|id: u64| is_first_labelled(labels, label, id) {
        Some(choose|id: u64| is_first_labelled(labels, label, id))
    } else {
        None
    }
}

fn find_labelled(labels: &IdMap<String>, label: &str) -> (r: Option<u64>)
    ensures
        r == first_labelled(labels@, label@),
{
    let ids: Vec<u64> = labels.keys();
    let mut i: usize = 0;
    while i < ids.len()
        invariant
            i <= ids@.len(),
            ascending(ids@),
            ids@.to_set() == labels@.dom(),
            forall|k: int| 0 <= k < i ==> labels@[#[trigger] ids@[k]] != label@,
        decreases ids@.len() - i,
    {
        let id: u64 = ids[i];
        assert(ids@.to_set().contains(ids@[i as int]));
        if let Some(found) = labels.get(id) {
            if same(found.as_str(), label) {
                proof {
                    assert forall|other: u64| #[trigger] labels@.contains_key(other)
                        && labels@[other] == label@ implies id <= other by {
                        assert(ids@.to_set().contains(other));
                        let k = choose|k: int| 0 <= k < ids@.len() && ids@[k] == other;
                        assert(labels@[ids@[k]] == label@);
                    }
                    assert(is_first_labelled(labels@, label@, id));
                    let chosen = choose|id: u64| is_first_labelled(labels@, label@, id);
                    assert(is_first_labelled(labels@, label@, chosen));
                }
                return Some(id);
            }
        }
        i = i + 1;
    }
    proof {
        if exists|id: u64| is_first_labelled(labels@, label@, id) {
            let id = choose|id: u64| is_first_labelled(labels@, label@, id);
            assert(ids@.to_set().contains(id));
            let k = choose|k: int| 0 <= k < ids@.len() && ids@[k] == id;
            assert(labels@[ids@[k]] != label@);
        }
    }
    None
}

/// The bucket that the name of a container stands for: the public one, the one whose number
/// it gives, or the first one with that label.
pub open spec fn bucket_of_container(
    labels: Map<u64, Seq<char>>,
    container: Seq<char>,
) -> Option<u64> {
    if container == "public"@ {
        Some(0)
    } else {
        match id_behind("bucket_"@, container) {
            Some(id) => Some(id),
            None => first_labelled(labels, container),
        }
    }
}

fn find_bucket(labels: &IdMap<String>, container: &str) -> (r: Option<u64>)
    ensures
        r == bucket_of_container(labels@, container@),
{
    if same(container, "public") {
        return Some(0);
    }
    match parse_id_behind("bucket_", container) {
        Some(id) => Some(id),
        None => find_labelled(labels, container),
    }
}

/// The buckets that containers stand for, and the public one.
pub open spec fn named_buckets(labels: Map<u64, Seq<char>>, containers: Set<Seq<char>>) -> Set<
    u64,
> {
    Set::new(|id: u64| id == 0 || stands_for(labels, containers, id))
}

/// The buckets that a client may have by its containers: those that they stand for and the
/// public one, but never the one that is for the server alone.
pub open spec fn buckets_of(labels: Map<u64, Seq<char>>, containers: Set<Seq<char>>) -> Set<u64> {
    named_buckets(labels, containers).remove(SERVER_ONLY_BUCKET_ID)
}

/// Whether one of the containers stands for a bucket.
pub open spec fn stands_for(
    labels: Map<u64, Seq<char>>,
    containers: Set<Seq<char>>,
    id: u64,
) -> bool {
    exists|container: Seq<char>| #[trigger]
        containers.contains(container) && bucket_of_container(labels, container) == Some(id)
}

fn allow_buckets(labels: &IdMap<String>, containers: &StrSet) -> (r: HashSet<u64>)
    ensures
        r@ == buckets_of(labels@, containers@),
{
    let names: Vec<String> = containers.sorted();
    let mut allowed: HashSet<u64> = HashSet::new();
    allowed.insert(0);
    let mut i: usize = 0;
    let ghost list = texts(names@);
    proof {
        let none = list.take(0).to_set();
        assert(allowed@ =~= named_buckets(labels@, none)) by {
            assert forall|id: u64| allowed@.contains(id) == named_buckets(labels@, none).contains(
                id,
            ) by {
                if stands_for(labels@, none, id) {
                    let c = choose|c: Seq<char>| #[trigger]
                        none.contains(c) && bucket_of_container(labels@, c) == Some(id);
                    assert(list.take(0).contains(c));
                }
            }
        }
    }
    while i < names.len()
        invariant
            i <= names@.len(),
            list == texts(names@),
            allowed@ == named_buckets(labels@, list.take(i as int).to_set()),
        decreases names@.len() - i,
    {
        let found: Option<u64> = find_bucket(labels, names[i].as_str());
        if let Some(id) = found {
            allowed.insert(id);
        }
        proof {
            lemma_take_one_more(list, i as int);
            let done = list.take(i as int).to_set();
            let now = list.take(i + 1).to_set();
            let name = list[i as int];
            assert forall|id: u64| allowed@.contains(id) == named_buckets(labels@, now).contains(
                id,
            ) by {
                if stands_for(labels@, done, id) {
                    let c = choose|c: Seq<char>| #[trigger]
                        done.contains(c) && bucket_of_container(labels@, c) == Some(id);
                    assert(now.contains(c));
                }
                if stands_for(labels@, now, id) {
                    let c = choose|c: Seq<char>| #[trigger]
                        now.contains(c) && bucket_of_container(labels@, c) == Some(id);
                    if c != name {
                        assert(done.contains(c));
                    }
                }
                if found == Some(id) {
                    assert(now.contains(name));
                }
            }
            assert(allowed@ =~= named_buckets(labels@, now));
        }
        i = i + 1;
    }
    assert(list.take(i as int) =~= list);
    allowed.remove(&SERVER_ONLY_BUCKET_ID);
    allowed
}

// ---------------------------------------------------------------------------
// Admission
// ---------------------------------------------------------------------------

/// What a first message comes to: the client is let into a room or not.
pub enum Opening {
    Refused { reply: String },
    Accepted { room_id: u64, allowed: HashSet<u64>, reply: String },
}

pub ghost enum OpeningView {
    Refused { reply: Seq<char> },
    Accepted { room_id: u64, allowed: Set<u64>, reply: Seq<char> },
}

impl View for Opening {
    type V = OpeningView;

    open spec fn view(&self) -> OpeningView {
        match *self {
            Opening::Refused { reply } => OpeningView::Refused { reply: reply@ },
            Opening::Accepted { room_id, allowed, reply } => OpeningView::Accepted {
                room_id,
                allowed: allowed@,
                reply: reply@,
            },
        }
    }
}

/// The buckets that a client may see in a room, by the containers that its token grants.
pub open spec fn allowed_buckets(s: AppView, room_id: u64, granted: Option<Seq<Seq<char>>>) -> Set<
    u64,
> {
    let labels = if s.rooms.contains_key(room_id) {
        s.rooms[room_id].bucket_labels
    } else {
        Map::empty()
    };
    buckets_of(labels, allowed_containers(granted))
}

/// What good claims come to.
pub open spec fn admission(s: AppView, claims: ClaimsView) -> OpeningView {
    match u64_of_text(claims.room) {
        None => OpeningView::Refused { reply: auth_error_text("invalid_room_claim"@) },
        Some(room_id) => match s.refusal(room_id) {
            Some(e) => OpeningView::Refused { reply: auth_error_text(error_text(e)) },
            None => {
                let allowed = allowed_buckets(s, room_id, claims.containers);
                OpeningView::Accepted {
                    room_id,
                    allowed,
                    reply: auth_ok_state_text(
                        s.rooms[room_id].room_counter,
                        bucket_snapshot_text(s.rooms[room_id].snapshot(allowed)),
                    ),
                }
            },
        },
    }
}

/// The state after a token was checked, and what the client is told, given what the check
/// came to.
pub open spec fn opening(s: AppView, claims: Result<ClaimsView, Seq<char>>) -> (
    AppView,
    OpeningView,
) {
    match claims {
        Ok(claims) => (with_auth_success(s), admission(s, claims)),
        Err(reason) => (
            with_auth_failure(s),
            OpeningView::Refused { reply: auth_error_detail_text("invalid_jwt"@, reason) },
        ),
    }
}

/// Lets a client into its room or not, given what the check of its token came to.
pub fn admit_client(app: &mut AppState, claims: Result<Claims, String>) -> (r: Opening)
    requires
        old(app)@.ws_auth_failure < u64::MAX,
        old(app)@.ws_auth_success < u64::MAX,
    ensures
        (final(app)@, r@) == opening(old(app)@, checked_view(claims)),
{
    let claims: Claims = match claims {
        Ok(claims) => claims,
        Err(reason) => {
            app.ws_auth_failure = app.ws_auth_failure + 1;
            return Opening::Refused {
                reply: auth_error_with_detail("invalid_jwt", reason.as_str()),
            };
        },
    };
    app.ws_auth_success = app.ws_auth_success + 1;
    let digits: Vec<char> = chars_of(claims.room.as_str());
    let room_id: u64 = match parse_u64(digits.as_slice()) {
        Some(room_id) => room_id,
        None => {
            return Opening::Refused { reply: auth_error("invalid_room_claim") };
        },
    };
    let counter: u64 = match app.room_version(room_id) {
        Ok(counter) => counter,
        Err(e) => {
            return Opening::Refused { reply: auth_error(e.to_text().as_str()) };
        },
    };
    let containers: StrSet = allow_containers(&claims.containers);
    let allowed: HashSet<u64> = match app.rooms.get(room_id) {
        Some(room) => allow_buckets(&room.bucket_labels, &containers),
        None => {
            return Opening::Refused { reply: auth_error("room_not_found") };
        },
    };
    let snapshot: RoomSnapshot = match app.room_snapshot(room_id, &allowed) {
        Some(snapshot) => snapshot,
        None => {
            return Opening::Refused { reply: auth_error("room_not_found") };
        },
    };
    let state: String = snapshot.to_text();
    let reply: String = auth_ok_with_state(counter, state.as_str());
    Opening::Accepted { room_id, allowed, reply }
}

/// Whether a token was checked and the client dealt with accordingly.
pub open spec fn opened(
    before: AppView,
    jwt: Seq<char>,
    claims: Result<ClaimsView, Seq<char>>,
    after: AppView,
    r: OpeningView,
) -> bool {
    &&& can_come_to(before.jwt_key, before.jwt_issuer, before.jwt_audience, jwt, claims)
    &&& (after, r) == opening(before, claims)
}

/// Checks the token of a client now, and lets it into its room or not. Whether the token is
/// still good rests on the clock.
pub fn open_connection(app: &mut AppState, jwt: &str) -> (r: Opening)
    requires
        old(app)@.ws_auth_failure < u64::MAX,
        old(app)@.ws_auth_success < u64::MAX,
    ensures
        exists|claims: Result<ClaimsView, Seq<char>>| #[trigger]
            opened(old(app)@, jwt@, claims, final(app)@, r@),
        exists|claims: Result<Claims, String>|
            #![trigger checked_view(claims)]
            checked_now(
                old(app)@.jwt_key,
                old(app)@.jwt_issuer,
                old(app)@.jwt_audience,
                jwt,
                claims,
            ) && opened(old(app)@, jwt@, checked_view(claims), final(app)@, r@),
{
    let key: Option<&str> = as_str(&app.jwt_key);
    let issuer: Option<&str> = as_str(&app.jwt_issuer);
    let audience: Option<&str> = as_str(&app.jwt_audience);
    let claims: Result<Claims, String> = validate_jwt_claims(key, issuer, audience, jwt);
    let ghost checked = claims;
    assert(call_ensures(validate_jwt_claims, (key, issuer, audience, jwt), checked));
    let r: Opening = admit_client(app, claims);
    assert(opened(old(app)@, jwt@, checked_view(checked), app@, r@));
    r
}

// ---------------------------------------------------------------------------
// The stay
// ---------------------------------------------------------------------------

/// The hub after it has given out an identifier.
pub open spec fn with_id_given(hub: HubView) -> HubView {
    HubView { next_conn_id: one_more(hub.next_conn_id as int, u64::MAX as int) as u64, ..hub }
}

/// Adds a client that was told that it is let in, and gives it an identifier. Where one of
/// its buckets is full, the client is told so.
pub fn join(app: &mut AppState, hub: &mut WsHub, room_id: u64, allowed: HashSet<u64>) -> (r: Result<
    u64,
    String,
>)
    ensures
        ({
            let given = with_id_given(old(hub)@);
            let id = old(hub)@.next_conn_id;
            match r {
                Ok(conn_id) => {
                    &&& conn_id == id
                    &&& given.admits(id, allowed@)
                    &&& final(hub)@ == given.with_client(id, room_id, allowed@)
                    &&& final(app)@ == (AppView {
                        total_ws_connections: one_more(
                            old(app)@.total_ws_connections as int,
                            usize::MAX as int,
                        ) as usize,
                        ..old(app)@
                    })
                },
                Err(reply) => {
                    &&& !given.admits(id, allowed@)
                    &&& reply@ == auth_error_text("bucket_client_limit_exceeded"@)
                    &&& final(hub)@ == given
                    &&& final(app)@ == old(app)@
                },
            }
        }),
{
    let conn_id: u64 = hub.allocate_connection_id();
    match hub.add_client(conn_id, room_id, allowed) {
        Ok(_) => {
            if app.total_ws_connections < usize::MAX {
                app.total_ws_connections = app.total_ws_connections + 1;
            }
            Ok(conn_id)
        },
        Err(reason) => Err(auth_error(reason)),
    }
}

/// What is done about what came in.
#[derive(Debug)]
pub enum StreamAction {
    SendPong(Vec<u8>),
    /// Close the connection and stop.
    Close,
    /// Hand the value to the kernel.
    Forward(Value),
    Ignore,
    Stop,
}

/// Decides what is done about what a client that was let in sends. Text goes to the kernel
/// as JSON or else as a string, bytes as an array of numbers.
pub fn on_incoming(incoming: Incoming) -> (r: StreamAction)
    ensures
        match incoming {
            Incoming::Frame(Frame::Ping(payload)) => r == StreamAction::SendPong(payload),
            Incoming::Frame(Frame::Pong) => r is Ignore,
            Incoming::Frame(Frame::Close) => r is Close,
            Incoming::Frame(Frame::Text(text)) => r matches StreamAction::Forward(value) && value@
                == value_of_text(text@),
            Incoming::Frame(Frame::Binary(bytes)) => r matches StreamAction::Forward(value)
                && value@ == byte_array_text(bytes@),
            Incoming::Frame(Frame::Other) => r is Ignore,
            Incoming::Failed | Incoming::Ended => r is Stop,
        },
{
    match incoming {
        Incoming::Frame(Frame::Ping(payload)) => StreamAction::SendPong(payload),
        Incoming::Frame(Frame::Close) => StreamAction::Close,
        Incoming::Frame(Frame::Text(text)) => StreamAction::Forward(
            Value::from_text(text.as_str()),
        ),
        Incoming::Frame(Frame::Binary(bytes)) => StreamAction::Forward(
            Value::byte_array(bytes.as_slice()),
        ),
        Incoming::Frame(Frame::Pong) | Incoming::Frame(Frame::Other) => StreamAction::Ignore,
        Incoming::Failed | Incoming::Ended => StreamAction::Stop,
    }
}

/// The command that hands what a client sent to the kernel; none where the connection is not
/// there.
pub fn client_command(hub: &WsHub, conn_id: u64, value: Value) -> (r: Option<Commands>)
    ensures
        r == (if hub@.connections.contains_key(conn_id) {
            Some(Commands::WsMessage(hub@.connections[conn_id].room_id, value))
        } else {
            None
        }),
{
    match hub.get_client_room_id(conn_id) {
        Some(room_id) => Some(Commands::WsMessage(room_id, value)),
        None => None,
    }
}

/// Counts an event that could not be sent; the connection then stops.
pub fn note_send_error(app: &mut AppState)
    ensures
        final(app)@ == (AppView {
            ws_send_errors: one_more(old(app)@.ws_send_errors as int, u64::MAX as int) as u64,
            ..old(app)@
        }),
{
    if app.ws_send_errors < u64::MAX {
        app.ws_send_errors = app.ws_send_errors + 1;
    }
}

/// The state after a connection that lasted for the given time has ended.
pub open spec fn after_leaving(s: AppView, elapsed_ns: u128) -> AppView {
    AppView {
        total_ws_connections: one_less(s.total_ws_connections as int) as usize,
        ws_connection_latency_ns_total: if s.ws_connection_latency_ns_total + elapsed_ns
            <= u128::MAX {
            (s.ws_connection_latency_ns_total + elapsed_ns) as u128
        } else {
            u128::MAX
        },
        ws_connection_count: (s.ws_connection_count + 1) as u64,
        ..s
    }
}

/// Takes out a client whose connection has ended.
pub fn leave(app: &mut AppState, hub: &mut WsHub, conn_id: u64, elapsed_ns: u128)
    requires
        old(app)@.ws_connection_count < u64::MAX,
    ensures
        final(hub)@ == old(hub)@.without_client(conn_id),
        final(app)@ == after_leaving(old(app)@, elapsed_ns),
{
    hub.remove_client(conn_id);
    if app.total_ws_connections > 0 {
        app.total_ws_connections = app.total_ws_connections - 1;
    }
    app.ws_connection_latency_ns_total = if u128::MAX - app.ws_connection_latency_ns_total
        >= elapsed_ns {
        app.ws_connection_latency_ns_total + elapsed_ns
    } else {
        u128::MAX
    };
    app.ws_connection_count = app.ws_connection_count + 1;
}

// ---------------------------------------------------------------------------
// Laws
// ---------------------------------------------------------------------------

/// A client may always see the public bucket.
pub proof fn law_public_is_always_allowed(
    s: AppView,
    room_id: u64,
    granted: Option<Seq<Seq<char>>>,
)
    ensures
        allowed_buckets(s, room_id, granted).contains(0),
{
}

/// Whatever containers a token grants, by number or by label, a client never gets the bucket
/// that is for the server alone.
pub proof fn law_server_only_is_never_allowed(
    s: AppView,
    room_id: u64,
    granted: Option<Seq<Seq<char>>>,
)
    ensures
        !allowed_buckets(s, room_id, granted).contains(SERVER_ONLY_BUCKET_ID),
{
}

/// Where no client gets the updates of the bucket that is for the server alone, none gets them
/// after one that was let in has joined.
pub proof fn law_server_only_is_never_sent(
    s: AppView,
    claims: Result<ClaimsView, Seq<char>>,
    hub: HubView,
    conn_id: u64,
)
    requires
        hub.subscribers(SERVER_ONLY_BUCKET_ID) == Set::<u64>::empty(),
    ensures
        opening(s, claims).1 matches OpeningView::Accepted { room_id, allowed, .. } ==> {
            hub.with_client(conn_id, room_id, allowed).subscribers(SERVER_ONLY_BUCKET_ID)
                == Set::<u64>::empty()
        },
{
}

/// The name of a bucket, as clients see it, stands for that bucket.
pub proof fn law_bucket_names_stand_for_buckets(labels: Map<u64, Seq<char>>, bucket_id: u64)
    ensures
        bucket_of_container(labels, crate::kernel_state::bucket_name(bucket_id)) == Some(bucket_id),
{
    let name = crate::kernel_state::bucket_name(bucket_id);
    let digits = crate::text::decimal(bucket_id as nat);
    reveal_strlit("bucket_");
    reveal_strlit("public");
    assert(name[0] == 'b');
    assert(name.take("bucket_"@.len() as int) =~= "bucket_"@);
    assert(name.skip("bucket_"@.len() as int) =~= digits);
    crate::text::lemma_u64_round_trip(bucket_id);
    assert("public"@[0] == 'p');
}

/// A client is let only into a room that is in memory, and only with claims that name it.
pub proof fn law_only_claims_open_a_room(s: AppView, claims: Result<ClaimsView, Seq<char>>)
    ensures
        opening(s, claims).1 matches OpeningView::Accepted { room_id, allowed, .. } ==> {
            &&& claims matches Ok(c)
            &&& u64_of_text(c.room) == Some(room_id)
            &&& allowed == allowed_buckets(s, room_id, c.containers)
            &&& s.refusal(room_id) is None
        },
{
}

} // verus!
