//! A connection to the websocket server with numbered buckets, from its first frame to its
//! end.

use crate::auth::AuthMessage;
use crate::bucket_connection::with_id_given;
use crate::collections::{ascending, lemma_take_one_more, sorted_ids};
use crate::commands::DownstreamMessage;
use crate::connection::{Frame, Incoming};
use crate::downstream_auth::{can_come_to, checked_view, AuthConfig, Claims, ClaimsView};
use crate::hub::WsHub;
use crate::kernel_state::{error_text, AppState, AppView, StateError};
use crate::text::same;
use crate::wire::{
    auth_error, auth_error_detail_text, auth_error_text, auth_error_with_detail,
    auth_ok_state_text, auth_ok_with_state, bucket_snapshot_text,
};
use std::collections::HashSet;
use vstd::prelude::*;
use vstd::slice::slice_to_vec;
use vstd::string::*;

verus! {

broadcast use vstd::std_specs::hash::group_hash_axioms;

// ---------------------------------------------------------------------------
// Until the first message
// ---------------------------------------------------------------------------

/// What came of waiting for the first message.
#[derive(Debug)]
pub enum FirstIncoming {
    /// Text, with the message in it if it is the JSON of one.
    Text(Option<AuthMessage>),
    Ping(Vec<u8>),
    /// A frame that is neither text nor a ping.
    Other,
    Failed,
    Ended,
}

/// What is done about it.
#[derive(Debug)]
pub enum FirstAction {
    /// Check the token.
    Check(String),
    /// Answer the ping and wait on.
    SendPong(Vec<u8>),
    /// Send the text and stop.
    Refuse(String),
    /// Stop with the error of the connection.
    Fail,
    Stop,
}

/// Decides what is done until the first message is there.
pub fn on_first(incoming: FirstIncoming) -> (r: FirstAction)
    ensures
        match incoming {
            FirstIncoming::Text(Some(message)) => if message.typ@ == "auth"@ {
                r == FirstAction::Check(message.jwt)
            } else {
                r matches FirstAction::Refuse(reply) && reply@ == auth_error_text(
                    "expected_auth_type"@,
                )
            },
            FirstIncoming::Text(None) => r matches FirstAction::Refuse(reply) && reply@
                == auth_error_text("invalid_auth_frame"@),
            FirstIncoming::Ping(payload) => r == FirstAction::SendPong(payload),
            FirstIncoming::Other => r matches FirstAction::Refuse(reply) && reply@
                == auth_error_text("expected_text_auth_frame"@),
            FirstIncoming::Failed => r is Fail,
            FirstIncoming::Ended => r is Stop,
        },
{
    match incoming {
        FirstIncoming::Text(Some(message)) => {
            if same(message.typ.as_str(), "auth") {
                FirstAction::Check(message.jwt)
            } else {
                FirstAction::Refuse(auth_error("expected_auth_type"))
            }
        },
        FirstIncoming::Text(None) => FirstAction::Refuse(auth_error("invalid_auth_frame")),
        FirstIncoming::Ping(payload) => FirstAction::SendPong(payload),
        FirstIncoming::Other => FirstAction::Refuse(auth_error("expected_text_auth_frame")),
        FirstIncoming::Failed => FirstAction::Fail,
        FirstIncoming::Ended => FirstAction::Stop,
    }
}

// ---------------------------------------------------------------------------
// Admission
// ---------------------------------------------------------------------------

/// The buckets that a client may see, by those that its token grants: the public one is
/// among them, the reserved one never.
pub open spec fn allowed_buckets(granted: Option<Seq<u64>>, reserved: u64) -> Set<u64> {
    let named = match granted {
        Some(ids) => ids.to_set(),
        None => Set::empty(),
    };
    named.insert(0).remove(reserved)
}

fn allow_buckets(granted: &Option<Vec<u64>>, reserved: u64) -> (r: HashSet<u64>)
    ensures
        r@ == allowed_buckets(crate::downstream_auth::optional_ids(*granted), reserved),
{
    let mut allowed: HashSet<u64> = HashSet::new();
    if let Some(ids) = granted {
        let mut i: usize = 0;
        assert(allowed@ =~= ids@.take(0).to_set());
        while i < ids.len()
            invariant
                i <= ids@.len(),
                allowed@ == ids@.take(i as int).to_set(),
            decreases ids@.len() - i,
        {
            allowed.insert(ids[i]);
            proof {
                lemma_take_one_more(ids@, i as int);
            }
            i = i + 1;
        }
        assert(ids@.take(i as int) =~= ids@);
    }
    allowed.insert(0);
    allowed.remove(&reserved);
    allowed
}

/// What a first message comes to: the client is let in or not.
pub enum Opening {
    Refused { reply: String },
    Accepted { room_id: u64, allowed: HashSet<u64>, reply: String },
}

pub ghost enum OpeningView {
    Refused { reply: Seq<char> },
    Accepted { room_id: u64, allowed: Set<u64>, reply: Seq<char> },
}

impl View for Opening {
    type V = OpeningView;

    open spec fn view(&self) -> OpeningView {
        match *self {
            Opening::Refused { reply } => OpeningView::Refused { reply: reply@ },
            Opening::Accepted { room_id, allowed, reply } => OpeningView::Accepted {
                room_id,
                allowed: allowed@,
                reply: reply@,
            },
        }
    }
}

/// What a client is told that is let in: the version of the room and what it may see of it. Of
/// a room that does not exist the version is zero and nothing is there to see.
pub open spec fn welcome(s: AppView, room_id: u64, allowed: Set<u64>) -> Seq<char> {
    if s.rooms.contains_key(room_id) {
        auth_ok_state_text(
            s.rooms[room_id].room_counter,
            bucket_snapshot_text(s.rooms[room_id].snapshot(allowed)),
        )
    } else {
        auth_ok_state_text(0, "{}"@)
    }
}

/// What good claims come to: the client is let into the room that they name, which need not
/// exist yet. A room that exists must be loaded before clients can use it.
pub open spec fn admission(s: AppView, claims: ClaimsView, reserved: u64) -> OpeningView {
    match claims.room_id {
        Some(room_id) if room_id > 0 => if s.refusal(room_id) == Some(StateError::RoomNotLoaded) {
            OpeningView::Refused {
                reply: auth_error_text(error_text(StateError::RoomNotLoaded)),
            }
        } else {
            let allowed = allowed_buckets(claims.buckets, reserved);
            OpeningView::Accepted { room_id, allowed, reply: welcome(s, room_id, allowed) }
        },
        _ => OpeningView::Refused { reply: auth_error_text("invalid_jwt_missing_room_id"@) },
    }
}

/// What the check of a token comes to for the client.
pub open spec fn opening(
    s: AppView,
    claims: Result<ClaimsView, Seq<char>>,
    reserved: u64,
) -> OpeningView {
    match claims {
        Ok(c) => admission(s, c, reserved),
        Err(reason) => OpeningView::Refused {
            reply: auth_error_detail_text("invalid_jwt"@, reason),
        },
    }
}

/// Lets a client in or not, given what the check of its token came to.
pub fn admit_client(
    app: &AppState,
    claims: Result<Claims, String>,
    reserved_bucket_id: u64,
) -> (r: Opening)
    ensures
        r@ == opening(app@, checked_view(claims), reserved_bucket_id),
{
    let claims: Claims = match claims {
        Ok(claims) => claims,
        Err(reason) => {
            return Opening::Refused {
                reply: auth_error_with_detail("invalid_jwt", reason.as_str()),
            };
        },
    };
    let room_id: u64 = match claims.room_id {
        Some(room_id) => room_id,
        None => 0,
    };
    if room_id == 0 {
        return Opening::Refused { reply: auth_error("invalid_jwt_missing_room_id") };
    }
    let allowed: HashSet<u64> = allow_buckets(&claims.buckets, reserved_bucket_id);
    let reply: String = match app.room_version(room_id) {
        Ok(counter) => match app.room_snapshot(room_id, &allowed) {
            Some(snapshot) => auth_ok_with_state(counter, snapshot.to_text().as_str()),
            None => auth_ok_with_state(0, "{}"),
        },
        Err(StateError::RoomNotFound) => auth_ok_with_state(0, "{}"),
        Err(e) => {
            return Opening::Refused { reply: auth_error(e.to_text().as_str()) };
        },
    };
    Opening::Accepted { room_id, allowed, reply }
}

/// Whether a token was checked and the client dealt with accordingly.
pub open spec fn opened(
    s: AppView,
    jwt_key: Seq<char>,
    jwt: Seq<char>,
    claims: Result<ClaimsView, Seq<char>>,
    reserved: u64,
    r: OpeningView,
) -> bool {
    can_come_to(jwt_key, jwt, claims) && r == opening(s, claims, reserved)
}

/// Checks the token of a client now, and lets it in or not. Whether the token is still good
/// rests on the clock.
pub fn open_connection(
    app: &AppState,
    config: &AuthConfig,
    jwt: &str,
    reserved_bucket_id: u64,
) -> (r: Opening)
    ensures
        exists|claims: Result<ClaimsView, Seq<char>>| #[trigger]
            opened(app@, config.jwt_key@, jwt@, claims, reserved_bucket_id, r@),
        exists|claims: Result<Claims, String>| #[trigger]
            call_ensures(AuthConfig::validate_jwt, (config, jwt), claims) && opened(
                app@,
                config.jwt_key@,
                jwt@,
                checked_view(claims),
                reserved_bucket_id,
                r@,
            ),
{
    let claims: Result<Claims, String> = config.validate_jwt(jwt);
    let ghost checked = claims;
    assert(call_ensures(AuthConfig::validate_jwt, (config, jwt), checked));
    let r: Opening = admit_client(app, claims, reserved_bucket_id);
    assert(opened(app@, config.jwt_key@, jwt@, checked_view(checked), reserved_bucket_id, r@));
    r
}

// ---------------------------------------------------------------------------
// The stay
// ---------------------------------------------------------------------------

/// Adds a client that was told that it is let in, gives it an identifier, and tells the
/// kernel. Where one of its buckets is full, the client is told so.
pub fn join(hub: &mut WsHub, room_id: u64, allowed: HashSet<u64>) -> (r: Result<
    (u64, DownstreamMessage),
    String,
>)
    ensures
        ({
            let given = with_id_given(old(hub)@);
            let id = old(hub)@.next_conn_id;
            match r {
                Ok((conn_id, message)) => {
                    &&& conn_id == id
                    &&& given.admits(id, allowed@)
                    &&& final(hub)@ == given.with_client(id, room_id, allowed@)
                    &&& match message {
                        DownstreamMessage::ClientConnected { conn_id, requested_buckets } => {
                            &&& conn_id == id
                            &&& ascending(requested_buckets@)
                            &&& requested_buckets@.to_set() == allowed@
                        },
                        _ => false,
                    }
                },
                Err(reply) => {
                    &&& !given.admits(id, allowed@)
                    &&& reply@ == auth_error_detail_text(
                        "client_add_failed"@,
                        "bucket_client_limit_exceeded"@,
                    )
                    &&& final(hub)@ == given
                },
            }
        }),
{
    let conn_id: u64 = hub.allocate_connection_id();
    let requested_buckets: Vec<u64> = sorted_ids(&allowed);
    match hub.add_client(conn_id, room_id, allowed) {
        Ok(_) => Ok((conn_id, DownstreamMessage::ClientConnected { conn_id, requested_buckets })),
        Err(reason) => Err(auth_error_with_detail("client_add_failed", reason)),
    }
}

/// What is done about what came in.
#[derive(Debug)]
pub enum StreamAction {
    SendPong(Vec<u8>),
    /// Close the connection and stop.
    Close,
    /// Hand the bytes to the kernel.
    Forward(Vec<u8>),
    Ignore,
    Stop,
}

/// Decides what is done about what a client that was let in sends: texts and bytes go to the
/// kernel.
pub fn on_incoming(incoming: Incoming) -> (r: StreamAction)
    ensures
        match incoming {
            Incoming::Frame(Frame::Ping(payload)) => r == StreamAction::SendPong(payload),
            Incoming::Frame(Frame::Pong) => r is Ignore,
            Incoming::Frame(Frame::Close) => r is Close,
            Incoming::Frame(Frame::Text(text)) => r matches StreamAction::Forward(bytes) && bytes@
                == vstd::utf8::encode_utf8(text@),
            Incoming::Frame(Frame::Binary(bytes)) => r == StreamAction::Forward(bytes),
            Incoming::Frame(Frame::Other) => r is Ignore,
            Incoming::Failed | Incoming::Ended => r is Stop,
        },
{
    match incoming {
        Incoming::Frame(Frame::Ping(payload)) => StreamAction::SendPong(payload),
        Incoming::Frame(Frame::Close) => StreamAction::Close,
        Incoming::Frame(Frame::Text(text)) => StreamAction::Forward(
            slice_to_vec(text.as_str().as_bytes()),
        ),
        Incoming::Frame(Frame::Binary(bytes)) => StreamAction::Forward(bytes),
        Incoming::Frame(Frame::Pong) | Incoming::Frame(Frame::Other) => StreamAction::Ignore,
        Incoming::Failed | Incoming::Ended => StreamAction::Stop,
    }
}

/// The message that hands what a client sent to the kernel; none where the connection is not
/// there.
pub fn client_message(hub: &WsHub, conn_id: u64, bytes: Vec<u8>) -> (r: Option<DownstreamMessage>)
    ensures
        r == (if hub@.connections.contains_key(conn_id) {
            Some(DownstreamMessage::WsMessage(hub@.connections[conn_id].room_id, bytes))
        } else {
            None
        }),
{
    match hub.process_client_message(conn_id, bytes) {
        Some((room_id, bytes)) => Some(DownstreamMessage::WsMessage(room_id, bytes)),
        None => None,
    }
}

/// Takes out a client whose connection has ended, and tells the kernel.
pub fn leave(hub: &mut WsHub, conn_id: u64) -> (r: DownstreamMessage)
    ensures
        final(hub)@ == old(hub)@.without_client(conn_id),
        r == (DownstreamMessage::ClientDisconnected { conn_id }),
{
    hub.remove_client(conn_id);
    DownstreamMessage::ClientDisconnected { conn_id }
}

// ---------------------------------------------------------------------------
// Laws
// ---------------------------------------------------------------------------

/// Good claims for a room above zero let the client in, whether the room exists or not, unless
/// it waits to be loaded.
pub proof fn law_good_claims_are_let_in(s: AppView, claims: ClaimsView, room_id: u64, reserved: u64)
    requires
        claims.room_id == Some(room_id),
        room_id > 0,
        s.rooms.contains_key(room_id) ==> s.rooms[room_id].loaded,
    ensures
        opening(s, Ok(claims), reserved) is Accepted,
{
}

/// Whatever a token grants, a client never gets the reserved bucket, and gets the public one
/// unless that is reserved.
pub proof fn law_reserved_is_never_allowed(granted: Option<Seq<u64>>, reserved: u64)
    ensures
        !allowed_buckets(granted, reserved).contains(reserved),
        reserved != 0 ==> allowed_buckets(granted, reserved).contains(0),
{
}

/// A client is let into a room only with claims that name it, and never into one that waits to
/// be loaded.
pub proof fn law_only_claims_open_a_room(
    s: AppView,
    claims: Result<ClaimsView, Seq<char>>,
    reserved: u64,
)
    ensures
        opening(s, claims, reserved) matches OpeningView::Accepted { room_id, allowed, .. } ==> {
            &&& claims matches Ok(c)
            &&& c.room_id == Some(room_id)
            &&& room_id > 0
            &&& s.rooms.contains_key(room_id) ==> s.rooms[room_id].loaded
            &&& allowed == allowed_buckets(c.buckets, reserved)
        },
{
}

} // verus!
