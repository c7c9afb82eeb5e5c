//! What clients and the servers that they connect to can rely on, from the first frame of a
//! connection to its end.

use crate::auth::{checked_now, checked_view, Claims};
use crate::bucket_connection;
use crate::collections::StrSet;
use crate::commands::{Commands, DownstreamMessage};
use crate::connection::{check_origin, FirstFrame, Frame, Incoming, OriginRefusal};
use crate::downstream_auth;
use crate::downstream_connection;
use crate::hub;
use crate::hub_laws::{connection_gone, lemma_connection_gone};
use crate::json::{json_string, json_text, Value};
use crate::kernel_state;
use crate::kernel_state_calls;
use crate::room_connection;
use crate::room_hub;
use crate::state;
use crate::state_calls;
use crate::text::{decimal, u64_of_text};
use crate::tokens::optional_texts;
use crate::wire::{bucket_snapshot_text, container_snapshot_text};
use std::collections::HashSet;
use vstd::prelude::*;
use vstd::string::*;

verus! {

broadcast use vstd::std_specs::hash::group_hash_axioms;

// ---------------------------------------------------------------------------
// Replies
// ---------------------------------------------------------------------------

/// A refusal, as a client gets it.
pub open spec fn refusal_reply(reason: Seq<char>) -> Seq<char> {
    "{\"reason\":"@ + json_string(reason) + ",\"type\":\"auth_error\"}"@
}

/// A refusal with a detail, as a client gets it.
pub open spec fn detailed_reply(reason: Seq<char>, detail: Seq<char>) -> Seq<char> {
    "{\"detail\":"@ + json_string(detail) + ",\"reason\":"@ + json_string(reason)
        + ",\"type\":\"auth_error\"}"@
}

/// The welcome with the version and the state of a room, as a client gets it.
pub open spec fn welcome_reply(room_counter: u64, state: Seq<char>) -> Seq<char> {
    "{\"room_counter\":"@ + decimal(room_counter as nat) + ",\"state\":"@ + state
        + ",\"type\":\"auth_ok\"}"@
}

// ---------------------------------------------------------------------------
// Before anything else
// ---------------------------------------------------------------------------

/// A request to connect may go on exactly if no origins are named, or its origin is one of those
/// named. One without an origin is a bad request, one from elsewhere is forbidden.
pub proof fn law_origins(
    allowed: &Vec<String>,
    origin: Option<&str>,
    r: Result<(), OriginRefusal>,
)
    requires
        call_ensures(check_origin, (allowed, origin), r),
    ensures
        r is Ok <==> allowed@.len() == 0 || (origin matches Some(from) && exists|i: int|
            0 <= i < allowed@.len() && (#[trigger] allowed@[i])@ == from@),
        r matches Err(refusal) ==> match origin {
            Some(from) => refusal.status == 403 && refusal.body@ == "origin_not_allowed: "@ + from@,
            None => refusal.status == 400 && refusal.body@ == "missing_origin"@,
        },
{
    let names = crate::collections::texts(allowed@);
    if let Some(from) = origin {
        if exists|i: int| 0 <= i < allowed@.len() && (#[trigger] allowed@[i])@ == from@ {
            let i = choose|i: int| 0 <= i < allowed@.len() && (#[trigger] allowed@[i])@ == from@;
            assert(names[i] == from@);
        }
        if names.contains(from@) {
            let i = choose|i: int| 0 <= i < names.len() && names[i] == from@;
            assert(allowed@[i]@ == from@);
        }
    }
}

/// Whether a first frame was dealt with rightly: the token of an `auth` message is taken, anything
/// else is refused with what is wrong.
pub open spec fn first_read(first: FirstFrame, r: Result<String, String>) -> bool {
    match first {
        FirstFrame::NotText => r matches Err(reply) && reply@ == refusal_reply(
            "invalid_auth_message"@,
        ),
        FirstFrame::NotJson => r matches Err(reply) && reply@ == refusal_reply("invalid_json"@),
        FirstFrame::Message(message) => if message.typ@ == "auth"@ {
            r matches Ok(jwt) && jwt@ == message.jwt@
        } else {
            r matches Err(reply) && reply@ == refusal_reply("missing_auth"@)
        },
    }
}

/// The token of an `auth` message is taken from the first frame; anything else is refused, and
/// counted as one failure more. Nothing else changes.
pub proof fn law_first_frames(
    app: &mut state::AppState,
    other: &mut kernel_state::AppState,
    first: FirstFrame,
    r: Result<String, String>,
    s: Result<String, String>,
)
    requires
        call_ensures(room_connection::read_first_frame, (app, first), r),
        call_ensures(bucket_connection::read_first_frame, (other, first), s),
        old(app)@.ws_auth_failure < u64::MAX,
        old(other)@.ws_auth_failure < u64::MAX,
    ensures
        first_read(first, r),
        first_read(first, s),
        r is Ok ==> final(app)@ == old(app)@,
        s is Ok ==> final(other)@ == old(other)@,
        r is Err ==> final(app)@ == (state::AppView {
            ws_auth_failure: (old(app)@.ws_auth_failure + 1) as u64,
            ..old(app)@
        }),
        s is Err ==> final(other)@ == (kernel_state::AppView {
            ws_auth_failure: (old(other)@.ws_auth_failure + 1) as u64,
            ..old(other)@
        }),
{
}

/// Until the first message is there pings are answered; then the token of an `auth` message is
/// checked, and anything else is refused with what is wrong.
pub proof fn law_first_messages(
    incoming: downstream_connection::FirstIncoming,
    r: downstream_connection::FirstAction,
)
    requires
        call_ensures(downstream_connection::on_first, (incoming,), r),
    ensures
        match incoming {
            downstream_connection::FirstIncoming::Text(Some(message)) => if message.typ@ == "auth"@ {
                r matches downstream_connection::FirstAction::Check(jwt) && jwt@ == message.jwt@
            } else {
                r matches downstream_connection::FirstAction::Refuse(reply) && reply@
                    == refusal_reply("expected_auth_type"@)
            },
            downstream_connection::FirstIncoming::Text(None) => r matches
                downstream_connection::FirstAction::Refuse(reply) && reply@ == refusal_reply(
                "invalid_auth_frame"@,
            ),
            downstream_connection::FirstIncoming::Ping(payload) => r
                == downstream_connection::FirstAction::SendPong(payload),
            downstream_connection::FirstIncoming::Other => r matches
                downstream_connection::FirstAction::Refuse(reply) && reply@ == refusal_reply(
                "expected_text_auth_frame"@,
            ),
            downstream_connection::FirstIncoming::Failed => r
                == downstream_connection::FirstAction::Fail,
            downstream_connection::FirstIncoming::Ended => r
                == downstream_connection::FirstAction::Stop,
        },
{
}

// ---------------------------------------------------------------------------
// Rooms with named containers
// ---------------------------------------------------------------------------

/// Whether a client was dealt with rightly, given what the check of its token came to. A check is
/// counted once, as a success or as a failure. With good claims the client is let into a room that
/// is there and free, with exactly the containers that its token grants and the public one, but
/// never the one of the server, and is told the version of the room and what it may see of it.
pub open spec fn let_into_room(
    before: state::AppView,
    claims: Result<Claims, String>,
    after: state::AppView,
    r: room_connection::Opening,
) -> bool {
    match claims {
        Err(reason) => {
            &&& after == state::AppView {
                ws_auth_failure: (before.ws_auth_failure + 1) as u64,
                ..before
            }
            &&& r matches room_connection::Opening::Refused { reply }
            &&& reply@ == detailed_reply("invalid_jwt"@, reason@)
        },
        Ok(claims) => {
            &&& after == state::AppView {
                ws_auth_success: (before.ws_auth_success + 1) as u64,
                ..before
            }
            &&& match u64_of_text(claims.room@) {
                None => r matches room_connection::Opening::Refused { reply } && reply@
                    == refusal_reply("invalid_room_claim"@),
                Some(id) => if !before.rooms.contains_key(id) {
                    r matches room_connection::Opening::Refused { reply } && reply@ == refusal_reply(
                        "room_not_found"@,
                    )
                } else if before.rooms[id].io_locked {
                    r matches room_connection::Opening::Refused { reply } && reply@ == refusal_reply(
                        "room_io_busy"@,
                    )
                } else {
                    &&& r matches room_connection::Opening::Accepted { room_id, allowed, reply }
                    &&& room_id == id
                    &&& forall|c: Seq<char>| #[trigger]
                        allowed@.contains(c) <==> c != "server_only"@ && (c == "public"@ || (
                        optional_texts(claims.containers) matches Some(names) && names.contains(c)))
                    &&& exists|seen: state::SnapshotView| #[trigger]
                        state_calls::shows(seen, before.rooms[id], allowed@) && reply@
                            == welcome_reply(
                            before.rooms[id].room_counter,
                            container_snapshot_text(seen),
                        )
                },
            }
        },
    }
}

/// A client is let into its room or not, given what the check of its token came to.
pub proof fn law_clients_of_rooms(
    app: &mut state::AppState,
    claims: Result<Claims, String>,
    r: room_connection::Opening,
)
    requires
        call_ensures(room_connection::admit_client, (app, claims), r),
    ensures
        let_into_room(old(app)@, claims, final(app)@, r),
{
    lemma_let_into_room(old(app)@, claims, final(app)@, r);
}

proof fn lemma_let_into_room(
    before: state::AppView,
    claims: Result<Claims, String>,
    after: state::AppView,
    r: room_connection::Opening,
)
    requires
        (after, r@) == room_connection::opening(before, checked_view(claims)),
    ensures
        let_into_room(before, claims, after, r),
{
    if let Ok(c) = claims {
        if let Some(id) = u64_of_text(c.room@) {
            if state_calls::free(before, id) {
                let allowed = room_connection::allowed_containers(optional_texts(c.containers));
                assert(state_calls::shows(
                    before.rooms[id].snapshot(allowed),
                    before.rooms[id],
                    allowed,
                ));
                reveal_strlit("public");
                reveal_strlit("server_only");
                assert("public"@.len() != "server_only"@.len());
                if let Some(names) = optional_texts(c.containers) {
                    assert forall|x: Seq<char>| names.to_set().contains(x) == #[trigger] names.contains(
                        x,
                    ) by {}
                }
            }
        }
    }
}

/// A client that connects has its token checked with the settings of the server, and is let into
/// its room or not by what the check comes to.
pub proof fn law_connecting_to_rooms(
    app: &mut state::AppState,
    jwt: &str,
    r: room_connection::Opening,
)
    requires
        call_ensures(room_connection::open_connection, (app, jwt), r),
    ensures
        exists|claims: Result<Claims, String>|
            #![trigger checked_view(claims)]
            checked_now(
                old(app)@.jwt_key,
                old(app)@.jwt_issuer,
                old(app)@.jwt_audience,
                jwt,
                claims,
            ) && let_into_room(old(app)@, claims, final(app)@, r),
{
    let claims = choose|claims: Result<Claims, String>|
        #![trigger checked_view(claims)]
        checked_now(
            old(app)@.jwt_key,
            old(app)@.jwt_issuer,
            old(app)@.jwt_audience,
            jwt,
            claims,
        ) && room_connection::opened(old(app)@, jwt@, checked_view(claims), final(app)@, r@);
    lemma_let_into_room(old(app)@, claims, final(app)@, r);
    let _ = checked_view(claims);
}

/// A client joins a room that has fewer than 200 clients: from then on it is counted and gets what
/// it is allowed, and everyone else gets what they got before. In a full room it is told so.
pub proof fn law_joining_rooms(
    app: &mut state::AppState,
    hub: &mut room_hub::WsHub,
    client_id: &str,
    room_id: u64,
    allowed: StrSet,
    r: Result<(), String>,
)
    requires
        call_ensures(room_connection::join, (app, hub, client_id, room_id, allowed), r),
    ensures
        ({
            let before = old(hub)@;
            let after = final(hub)@;
            let full = before.contains_key(room_id) && before[room_id].dom().len() >= 200;
            &&& r is Err <==> full
            &&& r matches Err(reply) ==> reply@ == refusal_reply("room_client_limit_exceeded"@)
                && after == before && final(app)@ == old(app)@
            &&& r is Ok ==> {
                &&& after.contains_key(room_id)
                &&& after[room_id].contains_key(client_id@)
                &&& after[room_id][client_id@] == allowed@
                &&& forall|other: u64|
                    other != room_id ==> (#[trigger] after.contains_key(other)
                        <==> before.contains_key(other)) && (before.contains_key(other)
                        ==> after[other] == before[other])
                &&& forall|other: Seq<char>|
                    other != client_id@ ==> (#[trigger] after[room_id].contains_key(other)
                        <==> before.contains_key(room_id) && before[room_id].contains_key(other))
                        && (after[room_id].contains_key(other) ==> after[room_id][other]
                        == before[room_id][other])
                &&& final(app)@ == state::AppView {
                    total_ws_connections: final(app)@.total_ws_connections,
                    ..old(app)@
                }
                &&& old(app)@.total_ws_connections < usize::MAX ==> final(app)@.total_ws_connections
                    == old(app)@.total_ws_connections + 1
            }
        }),
{
}

/// A client that leaves a room is gone from it and counted no more; its time is added to that of
/// all connections that have ended. Everyone else stays.
pub proof fn law_leaving_rooms(
    app: &mut state::AppState,
    hub: &mut room_hub::WsHub,
    client_id: &str,
    room_id: u64,
    elapsed_ns: u128,
)
    requires
        call_ensures(room_connection::leave, (app, hub, client_id, room_id, elapsed_ns), ()),
        old(app)@.ws_connection_count < u64::MAX,
    ensures
        ({
            let before = old(hub)@;
            let after = final(hub)@;
            &&& forall|other: u64|
                other != room_id ==> (#[trigger] after.contains_key(other) <==> before.contains_key(
                    other,
                )) && (before.contains_key(other) ==> after[other] == before[other])
            &&& after.contains_key(room_id) ==> !after[room_id].contains_key(client_id@)
            &&& forall|other: Seq<char>|
                before.contains_key(room_id) && #[trigger] before[room_id].contains_key(other)
                    && other != client_id@ ==> after.contains_key(room_id)
                    && after[room_id].contains_key(other) && after[room_id][other]
                    == before[room_id][other]
        }),
        final(app)@ == (state::AppView {
            total_ws_connections: final(app)@.total_ws_connections,
            ws_connection_latency_ns_total: final(app)@.ws_connection_latency_ns_total,
            ws_connection_count: (old(app)@.ws_connection_count + 1) as u64,
            ..old(app)@
        }),
        old(app)@.total_ws_connections > 0 ==> final(app)@.total_ws_connections == old(
            app,
        )@.total_ws_connections - 1,
        old(app)@.total_ws_connections == 0 ==> final(app)@.total_ws_connections == 0,
        old(app)@.ws_connection_latency_ns_total + elapsed_ns <= u128::MAX
            ==> final(app)@.ws_connection_latency_ns_total == old(
            app,
        )@.ws_connection_latency_ns_total + elapsed_ns,
{
    let before = old(hub)@;
    let after = final(hub)@;
    if before.contains_key(room_id) {
        let left = before[room_id].remove(client_id@);
        assert forall|other: Seq<char>| #[trigger] before[room_id].contains_key(other) && other
            != client_id@ implies after.contains_key(room_id) && after[room_id].contains_key(
            other,
        ) by {
            assert(left.dom().contains(other));
        }
    }
}

/// A client of a room has nothing to say: text and bytes are refused. Pings are answered, and a
/// close is a close.
pub proof fn law_clients_of_rooms_are_silent(
    incoming: Incoming,
    r: room_connection::StreamAction,
)
    requires
        call_ensures(room_connection::on_incoming, (incoming,), r),
    ensures
        match incoming {
            Incoming::Frame(Frame::Text(_)) | Incoming::Frame(Frame::Binary(_)) => r matches
                room_connection::StreamAction::Refuse(reply) && reply@ == refusal_reply(
                "unexpected_message_after_auth"@,
            ),
            Incoming::Frame(Frame::Ping(payload)) => r == room_connection::StreamAction::SendPong(
                payload,
            ),
            Incoming::Frame(Frame::Close) => r == room_connection::StreamAction::Close,
            Incoming::Frame(_) => r == room_connection::StreamAction::Ignore,
            Incoming::Failed | Incoming::Ended => r == room_connection::StreamAction::Stop,
        },
{
}

/// Events that could not be sent, and updates that could not be delivered, are counted, as far as
/// numbers go; nothing else changes.
pub proof fn law_failures_are_counted(
    app: &mut state::AppState,
    other: &mut state::AppState,
    kernel: &mut kernel_state::AppState,
    rate_limited: u64,
    full: u64,
)
    requires
        call_ensures(room_connection::note_send_error, (app,), ()),
        call_ensures(room_connection::note_broadcast, (other, rate_limited, full), ()),
        call_ensures(bucket_connection::note_send_error, (kernel,), ()),
    ensures
        final(app)@ == (state::AppView { ws_send_errors: final(app)@.ws_send_errors, ..old(app)@ }),
        old(app)@.ws_send_errors < u64::MAX ==> final(app)@.ws_send_errors == old(
            app,
        )@.ws_send_errors + 1,
        final(kernel)@ == (kernel_state::AppView {
            ws_send_errors: final(kernel)@.ws_send_errors,
            ..old(kernel)@
        }),
        old(kernel)@.ws_send_errors < u64::MAX ==> final(kernel)@.ws_send_errors == old(
            kernel,
        )@.ws_send_errors + 1,
        final(other)@ == (state::AppView {
            ws_update_rate_limited: final(other)@.ws_update_rate_limited,
            ws_update_dropped: final(other)@.ws_update_dropped,
            ..old(other)@
        }),
        old(other)@.ws_update_rate_limited + rate_limited <= u64::MAX
            ==> final(other)@.ws_update_rate_limited == old(other)@.ws_update_rate_limited
            + rate_limited,
        old(other)@.ws_update_dropped + full <= u64::MAX ==> final(other)@.ws_update_dropped == old(
            other,
        )@.ws_update_dropped + full,
{
}

// ---------------------------------------------------------------------------
// Numbered buckets by named containers
// ---------------------------------------------------------------------------

/// Whether the name of a container gives the number of a bucket: `bucket_` and the number.
pub open spec fn gives_number(container: Seq<char>, b: u64) -> bool {
    exists|rest: Seq<char>| container == #[trigger] ("bucket_"@ + rest) && u64_of_text(rest) == Some(b)
}

/// Whether a container stands for a bucket: `public` for the first one; else the one whose number it
/// gives; else, if it gives none, the first one with that label.
pub open spec fn container_means(labels: Map<u64, Seq<char>>, container: Seq<char>, b: u64) -> bool {
    if container == "public"@ {
        b == 0
    } else if exists|n: u64| gives_number(container, n) {
        gives_number(container, b)
    } else {
        &&& labels.contains_key(b)
        &&& labels[b] == container
        &&& forall|other: u64| #[trigger]
            labels.contains_key(other) && labels[other] == container ==> b <= other
    }
}

/// Whether a client may have a bucket by the containers that its token grants: it is the public one,
/// or one of the containers stands for it; but it is never the one for the server alone.
pub open spec fn may_have_bucket(
    labels: Map<u64, Seq<char>>,
    granted: Option<Seq<Seq<char>>>,
    b: u64,
) -> bool {
    &&& b != u64::MAX
    &&& b == 0 || exists|c: Seq<char>|
        c != "server_only"@ && granted is Some && granted->0.contains(c) && #[trigger] container_means(
            labels,
            c,
            b,
        )
}

/// Whether a client was dealt with rightly, given what the check of its token came to. With good
/// claims it is let into a room that is in memory, with exactly the buckets that it may have, and
/// is told the version of the room and what it may see of it.
pub open spec fn let_into_buckets(
    before: kernel_state::AppView,
    claims: Result<Claims, String>,
    after: kernel_state::AppView,
    r: bucket_connection::Opening,
) -> bool {
    match claims {
        Err(reason) => {
            &&& after == kernel_state::AppView {
                ws_auth_failure: (before.ws_auth_failure + 1) as u64,
                ..before
            }
            &&& r matches bucket_connection::Opening::Refused { reply }
            &&& reply@ == detailed_reply("invalid_jwt"@, reason@)
        },
        Ok(claims) => {
            &&& after == kernel_state::AppView {
                ws_auth_success: (before.ws_auth_success + 1) as u64,
                ..before
            }
            &&& match u64_of_text(claims.room@) {
                None => r matches bucket_connection::Opening::Refused { reply } && reply@
                    == refusal_reply("invalid_room_claim"@),
                Some(id) => if !before.rooms.contains_key(id) {
                    r matches bucket_connection::Opening::Refused { reply } && reply@
                        == refusal_reply("room_not_found"@)
                } else if !before.rooms[id].loaded {
                    r matches bucket_connection::Opening::Refused { reply } && reply@
                        == refusal_reply("room_not_loaded"@)
                } else {
                    &&& r matches bucket_connection::Opening::Accepted { room_id, allowed, reply }
                    &&& room_id == id
                    &&& forall|b: u64| #[trigger]
                        allowed@.contains(b) <==> may_have_bucket(
                            before.rooms[id].bucket_labels,
                            optional_texts(claims.containers),
                            b,
                        )
                    &&& exists|seen: kernel_state::SnapshotView| #[trigger]
                        kernel_state_calls::shows(seen, before.rooms[id], allowed@) && reply@
                            == welcome_reply(
                            before.rooms[id].room_counter,
                            bucket_snapshot_text(seen),
                        )
                },
            }
        },
    }
}

proof fn lemma_gives_number(container: Seq<char>, b: u64)
    ensures
        gives_number(container, b) <==> crate::persistence::id_behind("bucket_"@, container) == Some(
            b,
        ),
{
    let n = "bucket_"@.len() as int;
    if crate::persistence::id_behind("bucket_"@, container) == Some(b) {
        let rest = container.skip(n);
        assert(container =~= "bucket_"@ + rest);
    }
    if gives_number(container, b) {
        let rest = choose|rest: Seq<char>|
            container == #[trigger] ("bucket_"@ + rest) && u64_of_text(rest) == Some(b);
        assert(container.take(n) =~= "bucket_"@);
        assert(container.skip(n) =~= rest);
    }
}

proof fn lemma_container_means(labels: Map<u64, Seq<char>>, container: Seq<char>, b: u64)
    ensures
        container_means(labels, container, b) <==> bucket_connection::bucket_of_container(
            labels,
            container,
        ) == Some(b),
{
    assert forall|n: u64| gives_number(container, n) == (#[trigger] crate::persistence::id_behind(
        "bucket_"@,
        container,
    ) == Some(n)) by {
        lemma_gives_number(container, n);
    }
    lemma_gives_number(container, b);
    if container != "public"@ {
        match crate::persistence::id_behind("bucket_"@, container) {
            Some(n) => {
                lemma_gives_number(container, n);
            },
            None => {
                assert forall|n: u64| !gives_number(container, n) by {
                    lemma_gives_number(container, n);
                }
                if container_means(labels, container, b) {
                    assert(bucket_connection::is_first_labelled(labels, container, b));
                    let first = choose|id: u64|
                        bucket_connection::is_first_labelled(labels, container, id);
                    assert(bucket_connection::is_first_labelled(labels, container, first));
                    assert(labels.contains_key(first) && labels.contains_key(b));
                }
                if bucket_connection::first_labelled(labels, container) == Some(b) {
                    assert(bucket_connection::is_first_labelled(labels, container, b));
                }
            },
        }
    }
}

proof fn lemma_may_have_bucket(
    labels: Map<u64, Seq<char>>,
    granted: Option<Seq<Seq<char>>>,
    b: u64,
)
    ensures
        may_have_bucket(labels, granted, b) <==> bucket_connection::buckets_of(
            labels,
            room_connection::allowed_containers(granted),
        ).contains(b),
{
    let containers = room_connection::allowed_containers(granted);
    assert forall|c: Seq<char>| #[trigger] containers.contains(c) == (c != "server_only"@ && (c
        == "public"@ || (granted is Some && granted->0.contains(c)))) by {}
    if bucket_connection::stands_for(labels, containers, b) {
        let c = choose|c: Seq<char>| #[trigger]
            containers.contains(c) && bucket_connection::bucket_of_container(labels, c) == Some(b);
        lemma_container_means(labels, c, b);
        assert(container_means(labels, c, b));
    }
    if exists|c: Seq<char>|
        c != "server_only"@ && granted is Some && granted->0.contains(c) && #[trigger] container_means(
            labels,
            c,
            b,
        ) {
        let c = choose|c: Seq<char>|
            c != "server_only"@ && granted is Some && granted->0.contains(c)
                && #[trigger] container_means(labels, c, b);
        lemma_container_means(labels, c, b);
        assert(containers.contains(c));
    }
}

proof fn lemma_let_into_buckets(
    before: kernel_state::AppView,
    claims: Result<Claims, String>,
    after: kernel_state::AppView,
    r: bucket_connection::Opening,
)
    requires
        (after, r@) == bucket_connection::opening(before, checked_view(claims)),
    ensures
        let_into_buckets(before, claims, after, r),
{
    if let Ok(c) = claims {
        if let Some(id) = u64_of_text(c.room@) {
            if kernel_state_calls::in_memory(before, id) {
                let granted = optional_texts(c.containers);
                let allowed = bucket_connection::allowed_buckets(before, id, granted);
                kernel_state_calls::lemma_snapshot_shows(before.rooms[id], allowed);
                assert(kernel_state_calls::shows(
                    before.rooms[id].snapshot(allowed),
                    before.rooms[id],
                    allowed,
                ));
                assert forall|b: u64| #[trigger] allowed.contains(b) <==> may_have_bucket(
                    before.rooms[id].bucket_labels,
                    granted,
                    b,
                ) by {
                    lemma_may_have_bucket(before.rooms[id].bucket_labels, granted, b);
                }
            }
        }
    }
}

/// A client is let into its room or not, given what the check of its token came to.
pub proof fn law_clients_of_buckets(
    app: &mut kernel_state::AppState,
    claims: Result<Claims, String>,
    r: bucket_connection::Opening,
)
    requires
        call_ensures(bucket_connection::admit_client, (app, claims), r),
    ensures
        let_into_buckets(old(app)@, claims, final(app)@, r),
{
    lemma_let_into_buckets(old(app)@, claims, final(app)@, r);
}

/// A client that connects has its token checked with the settings of the server, and is let into
/// its room or not by what the check comes to.
pub proof fn law_connecting_to_buckets(
    app: &mut kernel_state::AppState,
    jwt: &str,
    r: bucket_connection::Opening,
)
    requires
        call_ensures(bucket_connection::open_connection, (app, jwt), r),
    ensures
        exists|claims: Result<Claims, String>|
            #![trigger checked_view(claims)]
            checked_now(
                old(app)@.jwt_key,
                old(app)@.jwt_issuer,
                old(app)@.jwt_audience,
                jwt,
                claims,
            ) && let_into_buckets(old(app)@, claims, final(app)@, r),
{
    let claims = choose|claims: Result<Claims, String>|
        #![trigger checked_view(claims)]
        checked_now(
            old(app)@.jwt_key,
            old(app)@.jwt_issuer,
            old(app)@.jwt_audience,
            jwt,
            claims,
        ) && bucket_connection::opened(old(app)@, jwt@, checked_view(claims), final(app)@, r@);
    lemma_let_into_buckets(old(app)@, claims, final(app)@, r);
    let _ = checked_view(claims);
}

/// What a client of buckets sends goes to the kernel: text as the JSON that it is, or else as a
/// string, and bytes as an array of their numbers. Pings are answered, and a close is a close.
pub proof fn law_clients_of_buckets_are_heard(
    incoming: Incoming,
    r: bucket_connection::StreamAction,
)
    requires
        call_ensures(bucket_connection::on_incoming, (incoming,), r),
    ensures
        match incoming {
            Incoming::Frame(Frame::Text(text)) => r matches
                bucket_connection::StreamAction::Forward(value) && value@ == (
            if json_text(text@) is Ok {
                json_text(text@)->Ok_0
            } else {
                json_string(text@)
            }),
            Incoming::Frame(Frame::Binary(bytes)) => r matches
                bucket_connection::StreamAction::Forward(value) && value@
                == crate::json::byte_array_text(bytes@),
            Incoming::Frame(Frame::Ping(payload)) => r == bucket_connection::StreamAction::SendPong(
                payload,
            ),
            Incoming::Frame(Frame::Close) => r == bucket_connection::StreamAction::Close,
            Incoming::Frame(_) => r == bucket_connection::StreamAction::Ignore,
            Incoming::Failed | Incoming::Ended => r == bucket_connection::StreamAction::Stop,
        },
{
}

/// What a client sends is for the room that it is in; of a connection that is not there nothing
/// comes.
pub proof fn law_messages_are_for_the_room(
    hub: &hub::WsHub,
    conn_id: u64,
    value: Value,
    r: Option<Commands>,
    bytes: Vec<u8>,
    s: Option<DownstreamMessage>,
)
    requires
        call_ensures(bucket_connection::client_command, (hub, conn_id, value), r),
        call_ensures(downstream_connection::client_message, (hub, conn_id, bytes), s),
    ensures
        hub@.connections.contains_key(conn_id) ==> r == Some(
            Commands::WsMessage(hub@.connections[conn_id].room_id, value),
        ) && s == Some(DownstreamMessage::WsMessage(hub@.connections[conn_id].room_id, bytes)),
        !hub@.connections.contains_key(conn_id) ==> r is None && s is None,
{
}

/// Whether a connection was added to a hub: it is in its room with its buckets, gets their updates
/// and no others, and everyone else gets what they got before.
pub open spec fn connection_added(
    before: hub::HubView,
    after: hub::HubView,
    conn_id: u64,
    room_id: u64,
    allowed: Set<u64>,
) -> bool {
    &&& after.connections.contains_key(conn_id)
    &&& after.connections[conn_id].room_id == room_id
    &&& after.connections[conn_id].buckets == allowed
    &&& forall|c: u64|
        c != conn_id ==> (#[trigger] after.connections.contains_key(c)
            <==> before.connections.contains_key(c)) && (before.connections.contains_key(c)
            ==> after.connections[c] == before.connections[c])
    &&& forall|b: u64| #[trigger]
        after.buckets.contains_key(b) <==> before.buckets.contains_key(b) || allowed.contains(b)
    &&& forall|b: u64, c: u64|
        after.buckets.contains_key(b) ==> (#[trigger] after.buckets[b].contains(c) <==> (
        before.buckets.contains_key(b) && before.buckets[b].contains(c)) || (c == conn_id
            && allowed.contains(b)))
}

/// Whether a bucket is full: it has 200 connections, and the given one is not among them.
pub open spec fn is_full(before: hub::HubView, allowed: Set<u64>, conn_id: u64) -> bool {
    exists|b: u64| #[trigger]
        allowed.contains(b) && before.buckets.contains_key(b) && before.buckets[b].len() >= 200
            && !before.buckets[b].contains(conn_id)
}

proof fn lemma_added(before: hub::HubView, conn_id: u64, room_id: u64, allowed: Set<u64>)
    ensures
        before.admits(conn_id, allowed) <==> !is_full(before, allowed, conn_id),
        connection_added(
            before,
            before.with_client(conn_id, room_id, allowed),
            conn_id,
            room_id,
            allowed,
        ),
{
    assert forall|b: u64| #[trigger] before.full_for(conn_id, b) == (before.buckets.contains_key(b)
        && before.buckets[b].len() >= 200 && !before.buckets[b].contains(conn_id)) by {
        if !before.buckets.contains_key(b) {
            assert(before.subscribers(b).len() == 0);
        }
    }
    if !before.admits(conn_id, allowed) {
        let b = choose|b: u64| allowed.contains(b) && before.full_for(conn_id, b);
        assert(allowed.contains(b) && before.full_for(conn_id, b));
    }
}

/// A client joins a hub under the next identifier, unless one of its buckets is full; then it is
/// told so. Who joins is counted, and the kernel is told the buckets that it may have.
pub proof fn law_joining_buckets(
    app: &mut kernel_state::AppState,
    hub: &mut hub::WsHub,
    room_id: u64,
    allowed: HashSet<u64>,
    r: Result<u64, String>,
    other: &mut hub::WsHub,
    s: Result<(u64, DownstreamMessage), String>,
)
    requires
        call_ensures(bucket_connection::join, (app, hub, room_id, allowed), r),
        call_ensures(downstream_connection::join, (other, room_id, allowed), s),
    ensures
        ({
            let id = old(hub)@.next_conn_id;
            &&& r is Err <==> is_full(old(hub)@, allowed@, id)
            &&& id < u64::MAX ==> final(hub)@.next_conn_id == id + 1
            &&& r matches Err(reply) ==> reply@ == refusal_reply("bucket_client_limit_exceeded"@)
                && final(hub)@.connections == old(hub)@.connections && final(hub)@.buckets == old(
                hub,
            )@.buckets && final(app)@ == old(app)@
            &&& r matches Ok(conn_id) ==> {
                &&& conn_id == id
                &&& connection_added(old(hub)@, final(hub)@, id, room_id, allowed@)
                &&& final(app)@ == kernel_state::AppView {
                    total_ws_connections: final(app)@.total_ws_connections,
                    ..old(app)@
                }
                &&& old(app)@.total_ws_connections < usize::MAX ==> final(app)@.total_ws_connections
                    == old(app)@.total_ws_connections + 1
            }
        }),
        ({
            let id = old(other)@.next_conn_id;
            &&& s is Err <==> is_full(old(other)@, allowed@, id)
            &&& id < u64::MAX ==> final(other)@.next_conn_id == id + 1
            &&& s matches Err(reply) ==> reply@ == detailed_reply(
                "client_add_failed"@,
                "bucket_client_limit_exceeded"@,
            ) && final(other)@.connections == old(other)@.connections && final(other)@.buckets
                == old(other)@.buckets
            &&& s matches Ok((conn_id, message)) ==> {
                &&& conn_id == id
                &&& connection_added(old(other)@, final(other)@, id, room_id, allowed@)
                &&& message matches DownstreamMessage::ClientConnected {
                    conn_id: of,
                    requested_buckets,
                }
                &&& of == id
                &&& forall|b: u64| #[trigger]
                    requested_buckets@.contains(b) <==> allowed@.contains(b)
                &&& forall|i: int, j: int|
                    0 <= i < j < requested_buckets@.len() ==> #[trigger] requested_buckets@[i]
                        < #[trigger] requested_buckets@[j]
            }
        }),
{
    let a = bucket_connection::with_id_given(old(hub)@);
    let b = bucket_connection::with_id_given(old(other)@);
    lemma_added(a, old(hub)@.next_conn_id, room_id, allowed@);
    lemma_added(b, old(other)@.next_conn_id, room_id, allowed@);
    if let Ok((conn_id, DownstreamMessage::ClientConnected { conn_id: of, requested_buckets })) = s {
        assert forall|b: u64| #[trigger] requested_buckets@.contains(b) <==> allowed@.contains(
            b,
        ) by {
            assert(requested_buckets@.to_set().contains(b) == requested_buckets@.contains(b));
        }
    }
}

/// A client that leaves is gone from the hub, and no one else is. It is counted no more, its time is
/// added to that of all connections that have ended, and the kernel is told.
pub proof fn law_leaving_buckets(
    app: &mut kernel_state::AppState,
    hub: &mut hub::WsHub,
    conn_id: u64,
    elapsed_ns: u128,
    other: &mut hub::WsHub,
    message: DownstreamMessage,
)
    requires
        call_ensures(bucket_connection::leave, (app, hub, conn_id, elapsed_ns), ()),
        call_ensures(downstream_connection::leave, (other, conn_id), message),
        old(app)@.ws_connection_count < u64::MAX,
        old(hub)@.exact(),
        old(other)@.exact(),
    ensures
        message == (DownstreamMessage::ClientDisconnected { conn_id }),
        connection_gone(old(hub)@, final(hub)@, conn_id),
        connection_gone(old(other)@, final(other)@, conn_id),
        final(app)@ == (kernel_state::AppView {
            total_ws_connections: final(app)@.total_ws_connections,
            ws_connection_latency_ns_total: final(app)@.ws_connection_latency_ns_total,
            ws_connection_count: (old(app)@.ws_connection_count + 1) as u64,
            ..old(app)@
        }),
        old(app)@.total_ws_connections > 0 ==> final(app)@.total_ws_connections == old(
            app,
        )@.total_ws_connections - 1,
        old(app)@.total_ws_connections == 0 ==> final(app)@.total_ws_connections == 0,
        old(app)@.ws_connection_latency_ns_total + elapsed_ns <= u128::MAX
            ==> final(app)@.ws_connection_latency_ns_total == old(
            app,
        )@.ws_connection_latency_ns_total + elapsed_ns,
{
    lemma_connection_gone(old(hub)@, conn_id);
    lemma_connection_gone(old(other)@, conn_id);
}

// ---------------------------------------------------------------------------
// Numbered buckets by number
// ---------------------------------------------------------------------------

/// Whether a client was dealt with rightly, given what the check of its token came to. With good
/// claims for a room above zero it is let in, with exactly the buckets that its token grants and
/// the public one, but never the reserved one; it is told the version of the room and what it may
/// see of it, or of a room that does not exist that there is nothing. Only a room that waits to be
/// loaded is refused.
pub open spec fn let_in(
    s: kernel_state::AppView,
    claims: Result<downstream_auth::Claims, String>,
    reserved: u64,
    r: downstream_connection::Opening,
) -> bool {
    match claims {
        Err(reason) => r matches downstream_connection::Opening::Refused { reply } && reply@
            == detailed_reply("invalid_jwt"@, reason@),
        Ok(claims) => if claims.room_id is None || claims.room_id == Some(0u64) {
            r matches downstream_connection::Opening::Refused { reply } && reply@ == refusal_reply(
                "invalid_jwt_missing_room_id"@,
            )
        } else {
            let id = claims.room_id->0;
            if s.rooms.contains_key(id) && !s.rooms[id].loaded {
                r matches downstream_connection::Opening::Refused { reply } && reply@
                    == refusal_reply("room_not_loaded"@)
            } else {
                &&& r matches downstream_connection::Opening::Accepted { room_id, allowed, reply }
                &&& room_id == id
                &&& forall|b: u64| #[trigger]
                    allowed@.contains(b) <==> b != reserved && (b == 0 || (
                    claims.buckets matches Some(ids) && ids@.contains(b)))
                &&& if s.rooms.contains_key(id) {
                    exists|seen: kernel_state::SnapshotView| #[trigger]
                        kernel_state_calls::shows(seen, s.rooms[id], allowed@) && reply@
                            == welcome_reply(s.rooms[id].room_counter, bucket_snapshot_text(seen))
                } else {
                    reply@ == welcome_reply(0, "{}"@)
                }
            }
        },
    }
}

proof fn lemma_let_in(
    s: kernel_state::AppView,
    claims: Result<downstream_auth::Claims, String>,
    reserved: u64,
    r: downstream_connection::Opening,
)
    requires
        r@ == downstream_connection::opening(s, downstream_auth::checked_view(claims), reserved),
    ensures
        let_in(s, claims, reserved, r),
{
    if let Ok(c) = claims {
        if let Some(id) = c.room_id {
            let allowed = downstream_connection::allowed_buckets(
                downstream_auth::optional_ids(c.buckets),
                reserved,
            );
            kernel_state_calls::lemma_snapshot_shows(s.rooms[id], allowed);
            assert(kernel_state_calls::shows(s.rooms[id].snapshot(allowed), s.rooms[id], allowed));
            if let Some(ids) = c.buckets {
                assert forall|b: u64| ids@.to_set().contains(b) == #[trigger] ids@.contains(b) by {}
            }
        }
    }
}

/// A client is let in or not, given what the check of its token came to.
pub proof fn law_clients_by_number(
    app: &kernel_state::AppState,
    claims: Result<downstream_auth::Claims, String>,
    reserved: u64,
    r: downstream_connection::Opening,
)
    requires
        call_ensures(downstream_connection::admit_client, (app, claims, reserved), r),
    ensures
        let_in(app@, claims, reserved, r),
{
    lemma_let_in(app@, claims, reserved, r);
}

/// A client that connects has its token checked, and is let in or not by what the check comes to.
pub proof fn law_connecting_by_number(
    app: &kernel_state::AppState,
    config: &downstream_auth::AuthConfig,
    jwt: &str,
    reserved: u64,
    r: downstream_connection::Opening,
)
    requires
        call_ensures(downstream_connection::open_connection, (app, config, jwt, reserved), r),
    ensures
        exists|claims: Result<downstream_auth::Claims, String>| #[trigger]
            call_ensures(downstream_auth::AuthConfig::validate_jwt, (config, jwt), claims)
                && let_in(app@, claims, reserved, r),
{
    let claims = choose|claims: Result<downstream_auth::Claims, String>| #[trigger]
        call_ensures(downstream_auth::AuthConfig::validate_jwt, (config, jwt), claims)
            && downstream_connection::opened(
            app@,
            config.jwt_key@,
            jwt@,
            downstream_auth::checked_view(claims),
            reserved,
            r@,
        );
    lemma_let_in(app@, claims, reserved, r);
}

/// What a client by number sends goes to the kernel as its bytes. Pings are answered, and a close is
/// a close.
pub proof fn law_clients_by_number_are_heard(
    incoming: Incoming,
    r: downstream_connection::StreamAction,
)
    requires
        call_ensures(downstream_connection::on_incoming, (incoming,), r),
    ensures
        match incoming {
            Incoming::Frame(Frame::Text(text)) => r matches
                downstream_connection::StreamAction::Forward(bytes) && bytes@
                == vstd::utf8::encode_utf8(text@),
            Incoming::Frame(Frame::Binary(bytes)) => r
                == downstream_connection::StreamAction::Forward(bytes),
            Incoming::Frame(Frame::Ping(payload)) => r
                == downstream_connection::StreamAction::SendPong(payload),
            Incoming::Frame(Frame::Close) => r == downstream_connection::StreamAction::Close,
            Incoming::Frame(_) => r == downstream_connection::StreamAction::Ignore,
            Incoming::Failed | Incoming::Ended => r == downstream_connection::StreamAction::Stop,
        },
{
}

/// A configuration is made of three values exactly if none of them is empty; of an empty one it is
/// said which.
pub proof fn law_configurations(
    key: String,
    issuer: String,
    audience: String,
    r: Result<downstream_auth::AuthConfig, String>,
)
    requires
        call_ensures(downstream_auth::AuthConfig::from_values, (key, issuer, audience), r),
    ensures
        r is Ok <==> key@.len() > 0 && issuer@.len() > 0 && audience@.len() > 0,
        r matches Ok(config) ==> config.jwt_key@ == key@ && config.jwt_issuer@ == issuer@
            && config.jwt_audience@ == audience@,
        key@.len() == 0 ==> (r matches Err(e) && e@
            == "JWT_KEY environment variable is required for authentication"@),
        key@.len() > 0 && issuer@.len() == 0 ==> (r matches Err(e) && e@
            == "JWT_ISSUER environment variable is required for authentication"@),
        key@.len() > 0 && issuer@.len() > 0 && audience@.len() == 0 ==> (r matches Err(e) && e@
            == "JWT_AUDIENCE environment variable is required for authentication"@),
{
}

} // verus!
