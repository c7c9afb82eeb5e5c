//! What the hub keeps over all its operations.

use crate::commands::{DataUpdate, UpdateChannelMessage};
use crate::hub::{HubView, SendOutcome, WsHub, MAX_WS_CLIENTS_PER_BUCKET};
use crate::wire::update_event_text;
use std::collections::HashSet;
use vstd::prelude::*;
use vstd::string::*;

verus! {

/// Adding a connection that the buckets have room for keeps the hub valid: no bucket
/// ever has more clients than it can have.
pub proof fn law_add_keeps_valid(hub: HubView, conn_id: u64, room_id: u64, allowed: Set<u64>)
    requires
        hub.valid(),
        hub.admits(conn_id, allowed),
    ensures
        hub.with_client(conn_id, room_id, allowed).valid(),
{
    let after = hub.with_client(conn_id, room_id, allowed);
    assert forall|bucket: u64| #[trigger] after.buckets.contains_key(
        bucket,
    ) implies after.buckets[bucket].finite() && 0 < after.buckets[bucket].len()
        <= MAX_WS_CLIENTS_PER_BUCKET by {
        if allowed.contains(bucket) {
            assert(!hub.full_for(conn_id, bucket));
            let before = hub.subscribers(bucket);
            assert(before.finite()) by {
                if hub.buckets.contains_key(bucket) {
                    assert(hub.buckets[bucket].finite());
                }
            }
            assert(after.buckets[bucket] == before.insert(conn_id));
            assert(before.insert(conn_id).contains(conn_id));
            if before.contains(conn_id) {
                assert(before.insert(conn_id) =~= before);
                assert(hub.buckets.contains_key(bucket));
            }
        } else {
            assert(hub.buckets.contains_key(bucket));
        }
    }
    assert forall|c: u64, bucket: u64| #[trigger] after.allows(c, bucket) implies after.subscribers(
        bucket,
    ).contains(c) by {
        if c != conn_id {
            assert(hub.allows(c, bucket));
            assert(hub.subscribers(bucket).contains(c));
        }
    }
}

/// Adding a new connection keeps the hub exact: the clients of a bucket are the
/// connections that are allowed it, and no others.
pub proof fn law_add_keeps_exact(hub: HubView, conn_id: u64, room_id: u64, allowed: Set<u64>)
    requires
        hub.exact(),
        hub.admits(conn_id, allowed),
        !hub.connections.contains_key(conn_id),
        conn_id < hub.next_conn_id,
    ensures
        hub.with_client(conn_id, room_id, allowed).exact(),
{
    let after = hub.with_client(conn_id, room_id, allowed);
    law_add_keeps_valid(hub, conn_id, room_id, allowed);
    assert forall|c: u64, bucket: u64| #[trigger] after.subscribers(bucket).contains(
        c,
    ) implies after.allows(c, bucket) by {
        if c == conn_id && !allowed.contains(bucket) {
            assert(hub.subscribers(bucket).contains(c));
            assert(hub.allows(c, bucket));
        } else if c != conn_id {
            assert(hub.subscribers(bucket).contains(c));
            assert(hub.allows(c, bucket));
        }
    }
    assert forall|c: u64| #[trigger] after.connections.contains_key(c) implies c
        < after.next_conn_id by {
        if c != conn_id {
            assert(hub.connections.contains_key(c));
        }
    }
}

/// Removing a connection keeps the hub valid.
pub proof fn law_remove_keeps_valid(hub: HubView, conn_id: u64)
    requires
        hub.valid(),
    ensures
        hub.without_client(conn_id).valid(),
{
    let after = hub.without_client(conn_id);
    if hub.connections.contains_key(conn_id) {
        let left = hub.connections[conn_id].buckets;
        assert forall|bucket: u64| #[trigger] after.buckets.contains_key(
            bucket,
        ) implies after.buckets[bucket].finite() && 0 < after.buckets[bucket].len()
            <= MAX_WS_CLIENTS_PER_BUCKET by {
            assert(hub.buckets.contains_key(bucket));
            if left.contains(bucket) {
                let rest = hub.buckets[bucket].remove(conn_id);
                if rest.len() == 0 {
                    rest.lemma_len0_is_empty();
                }
            }
        }
        assert forall|c: u64, bucket: u64| #[trigger] after.allows(
            c,
            bucket,
        ) implies after.subscribers(bucket).contains(c) by {
            assert(hub.allows(c, bucket));
            assert(hub.subscribers(bucket).contains(c));
            assert(hub.buckets[bucket].remove(conn_id).contains(c));
        }
    }
}

/// Removing a connection keeps the hub exact, and no bucket has the connection any more.
pub proof fn law_remove_keeps_exact(hub: HubView, conn_id: u64)
    requires
        hub.exact(),
    ensures
        hub.without_client(conn_id).exact(),
        !hub.without_client(conn_id).connections.contains_key(conn_id),
        forall|bucket: u64| !(#[trigger] hub.without_client(conn_id).subscribers(bucket)).contains(
            conn_id,
        ),
{
    let after = hub.without_client(conn_id);
    law_remove_keeps_valid(hub, conn_id);
    assert forall|c: u64, bucket: u64| #[trigger] after.subscribers(bucket).contains(
        c,
    ) implies after.allows(c, bucket) by {
        assert(hub.subscribers(bucket).contains(c));
        assert(hub.allows(c, bucket));
    }
    assert forall|c: u64| #[trigger] after.connections.contains_key(c) implies c
        < after.next_conn_id by {
        assert(hub.connections.contains_key(c));
    }
    assert forall|bucket: u64| !(#[trigger] after.subscribers(bucket)).contains(conn_id) by {
        if after.subscribers(bucket).contains(conn_id) {
            assert(after.allows(conn_id, bucket));
        }
    }
}

/// Removing a connection undoes what adding it did.
pub proof fn law_remove_undoes_add(hub: HubView, conn_id: u64, room_id: u64, allowed: Set<u64>)
    requires
        hub.exact(),
        !hub.connections.contains_key(conn_id),
    ensures
        hub.with_client(conn_id, room_id, allowed).without_client(conn_id) == hub,
{
    let between = hub.with_client(conn_id, room_id, allowed);
    let after = between.without_client(conn_id);
    assert(after.connections =~= hub.connections);
    assert forall|bucket: u64| !(#[trigger] hub.subscribers(bucket)).contains(conn_id) by {
        if hub.subscribers(bucket).contains(conn_id) {
            assert(hub.allows(conn_id, bucket));
        }
    }
    assert forall|bucket: u64| #[trigger] after.buckets.contains_key(bucket)
        == hub.buckets.contains_key(bucket) by {
        if allowed.contains(bucket) {
            let before = hub.subscribers(bucket);
            assert(before.insert(conn_id).remove(conn_id) =~= before);
            if hub.buckets.contains_key(bucket) {
                assert(before.len() > 0);
            }
        }
    }
    assert forall|bucket: u64| #[trigger] hub.buckets.contains_key(bucket) implies after.buckets[bucket]
        == hub.buckets[bucket] by {
        if allowed.contains(bucket) {
            assert(hub.subscribers(bucket).insert(conn_id).remove(conn_id) =~= hub.subscribers(
                bucket,
            ));
        }
    }
    assert(after.buckets =~= hub.buckets);
}

/// Whether an attempt to hand an event to a connection failed.
pub open spec fn failed(conns: Seq<u64>, outcomes: Seq<SendOutcome>, conn_id: u64) -> bool {
    exists|i: int| 0 <= i < conns.len() && #[trigger] conns[i] == conn_id && !(outcomes[i] is Sent)
}

/// After a broadcast the hub has the connections that it had, but for those that could
/// not take the event; and it stays exact.
pub proof fn law_broadcast_drops_the_failed(
    hub: HubView,
    conns: Seq<u64>,
    outcomes: Seq<SendOutcome>,
)
    requires
        hub.exact(),
        conns.len() == outcomes.len(),
    ensures
        hub.after_sends(conns, outcomes).exact(),
        forall|c: u64| #[trigger]
            hub.after_sends(conns, outcomes).connections.contains_key(c) <==> (
            hub.connections.contains_key(c) && !failed(conns, outcomes, c)),
        forall|c: u64| #[trigger]
            hub.after_sends(conns, outcomes).connections.contains_key(c) ==> hub.after_sends(
                conns,
                outcomes,
            ).connections[c] == hub.connections[c],
    decreases conns.len(),
{
    if conns.len() > 0 {
        let head = conns.drop_last();
        let head_outcomes = outcomes.drop_last();
        law_broadcast_drops_the_failed(hub, head, head_outcomes);
        let before = hub.after_sends(head, head_outcomes);
        law_remove_keeps_exact(before, conns.last());
        assert forall|c: u64| failed(conns, outcomes, c) == (failed(head, head_outcomes, c) || (c
            == conns.last() && !(outcomes.last() is Sent))) by {
            if failed(head, head_outcomes, c) {
                let i = choose|i: int|
                    0 <= i < head.len() && #[trigger] head[i] == c && !(head_outcomes[i] is Sent);
                assert(conns[i] == c);
            }
            if c == conns.last() && !(outcomes.last() is Sent) {
                assert(conns[conns.len() - 1] == c);
            }
            if failed(conns, outcomes, c) {
                let i = choose|i: int|
                    0 <= i < conns.len() && #[trigger] conns[i] == c && !(outcomes[i] is Sent);
                if i < head.len() {
                    assert(head[i] == c);
                }
            }
        }
    }
}

// ---------------------------------------------------------------------------
// What callers can rely on
// ---------------------------------------------------------------------------

/// A hub begins without connections and buckets, and gives out one as its first identifier.
pub proof fn law_new_hub_is_empty(hub: WsHub)
    requires
        call_ensures(WsHub::new, (), hub),
    ensures
        forall|c: u64| !#[trigger] hub@.connections.contains_key(c),
        forall|b: u64| !#[trigger] hub@.buckets.contains_key(b),
        hub@.next_conn_id == 1,
{
}

/// Identifiers are given out one after the other; connections and buckets stay.
pub proof fn law_identifiers_are_new(hub: &mut WsHub, r: u64)
    requires
        call_ensures(WsHub::allocate_connection_id, (hub,), r),
        old(hub)@.exact(),
    ensures
        !old(hub)@.connections.contains_key(r),
        r == old(hub)@.next_conn_id,
        r < u64::MAX ==> final(hub)@.next_conn_id == r + 1,
        r == u64::MAX ==> final(hub)@.next_conn_id == r,
        final(hub)@.connections == old(hub)@.connections,
        final(hub)@.buckets == old(hub)@.buckets,
{
}

/// A connection is added exactly if each of its buckets has fewer than 200 others. It then gets the
/// updates of its buckets and of no others, and everyone else gets what they got before.
pub proof fn law_connections_are_added(
    hub: &mut WsHub,
    conn_id: u64,
    room_id: u64,
    allowed: HashSet<u64>,
    r: Result<(), &'static str>,
)
    requires
        call_ensures(WsHub::add_client, (hub, conn_id, room_id, allowed), r),
    ensures
        ({
            let before = old(hub)@;
            let after = final(hub)@;
            &&& r is Err <==> exists|b: u64| #[trigger]
                allowed@.contains(b) && before.buckets.contains_key(b)
                    && before.buckets[b].len() >= 200 && !before.buckets[b].contains(conn_id)
            &&& r matches Err(e) ==> e@ == "bucket_client_limit_exceeded"@ && after == before
            &&& r is Ok ==> {
                &&& after.next_conn_id == before.next_conn_id
                &&& after.connections.contains_key(conn_id)
                &&& after.connections[conn_id].room_id == room_id
                &&& after.connections[conn_id].buckets == allowed@
                &&& forall|c: u64|
                    c != conn_id ==> (#[trigger] after.connections.contains_key(c)
                        <==> before.connections.contains_key(c)) && (before.connections.contains_key(
                        c,
                    ) ==> after.connections[c] == before.connections[c])
                &&& forall|b: u64|
                    allowed@.contains(b) ==> after.buckets.contains_key(b) && (
                    #[trigger] after.buckets[b]).contains(conn_id)
                &&& forall|b: u64| #[trigger]
                    after.buckets.contains_key(b) <==> before.buckets.contains_key(b)
                        || allowed@.contains(b)
                &&& forall|b: u64, c: u64|
                    c != conn_id && after.buckets.contains_key(b) ==> (#[trigger] after.buckets[b].contains(c)
                        <==> before.buckets.contains_key(b) && before.buckets[b].contains(c))
                &&& forall|b: u64|
                    !allowed@.contains(b) && before.buckets.contains_key(b) ==> #[trigger] after.buckets[b]
                        == before.buckets[b]
            }
        }),
{
    let before = old(hub)@;
    assert forall|b: u64| #[trigger] before.full_for(conn_id, b) == (before.buckets.contains_key(b)
        && before.buckets[b].len() >= 200 && !before.buckets[b].contains(conn_id)) by {
        if !before.buckets.contains_key(b) {
            assert(before.subscribers(b).len() == 0);
        }
    }
    if r is Err {
        let b = choose|b: u64| allowed@.contains(b) && before.full_for(conn_id, b);
        assert(allowed@.contains(b) && before.full_for(conn_id, b));
    }
}

/// Whether a connection is gone and gets nothing any more, and everyone else gets what they got before;
/// buckets that no one is left in are dropped.
pub open spec fn connection_gone(before: HubView, after: HubView, conn_id: u64) -> bool {
    &&& after.next_conn_id == before.next_conn_id
    &&& forall|c: u64| #[trigger]
        after.connections.contains_key(c) <==> before.connections.contains_key(c) && c != conn_id
    &&& forall|c: u64| #[trigger]
        after.connections.contains_key(c) ==> after.connections[c] == before.connections[c]
    &&& forall|b: u64, c: u64|
        (after.buckets.contains_key(b) && #[trigger] after.buckets[b].contains(c)) ==> c != conn_id
            && before.buckets.contains_key(b) && before.buckets[b].contains(c)
    &&& forall|b: u64, c: u64|
        before.buckets.contains_key(b) && #[trigger] before.buckets[b].contains(c) && c != conn_id
            ==> after.buckets.contains_key(b) && after.buckets[b].contains(c)
    &&& forall|b: u64| #[trigger]
        after.buckets.contains_key(b) ==> exists|c: u64| #[trigger] after.buckets[b].contains(c)
}

pub(crate) proof fn lemma_connection_gone(before: HubView, conn_id: u64)
    requires
        before.exact(),
    ensures
        connection_gone(before, before.without_client(conn_id), conn_id),
{
    let after = before.without_client(conn_id);
    assert forall|b: u64, c: u64|
        before.buckets.contains_key(b) && #[trigger] before.buckets[b].contains(c) implies
        before.subscribers(b).contains(c) by {}
    assert forall|b: u64, c: u64|
        (after.buckets.contains_key(b) && #[trigger] after.buckets[b].contains(c)) implies c
        != conn_id && before.buckets.contains_key(b) && before.buckets[b].contains(c) by {
        if c == conn_id {
            assert(before.subscribers(b).contains(c));
            assert(before.allows(conn_id, b));
        }
    }
    assert forall|b: u64, c: u64|
        before.buckets.contains_key(b) && #[trigger] before.buckets[b].contains(c) && c
            != conn_id implies after.buckets.contains_key(b) && after.buckets[b].contains(c) by {
        assert(before.buckets[b].remove(conn_id).contains(c));
    }
    assert forall|b: u64| #[trigger] after.buckets.contains_key(b) implies exists|c: u64|
        #[trigger] after.buckets[b].contains(c) by {
        assert(before.buckets.contains_key(b));
        if forall|c: u64| !#[trigger] after.buckets[b].contains(c) {
            assert(after.buckets[b] =~= Set::<u64>::empty());
            assert(before.buckets[b].len() > 0);
            if before.buckets[b] =~= Set::<u64>::empty() {
                assert(false);
            }
        }
    }
}

/// A connection that is taken out gets nothing any more; everyone else gets what they got before.
/// Buckets that no one is left in are dropped.
pub proof fn law_connections_are_removed(hub: &mut WsHub, conn_id: u64)
    requires
        call_ensures(WsHub::remove_client, (hub, conn_id), ()),
        old(hub)@.exact(),
    ensures
        connection_gone(old(hub)@, final(hub)@, conn_id),
{
    lemma_connection_gone(old(hub)@, conn_id);
}

/// The room of a connection is the one that it was added with; a message of it goes to that room,
/// as it is.
pub proof fn law_messages_go_to_the_room(
    hub: &WsHub,
    conn_id: u64,
    msg: Vec<u8>,
    room: Option<u64>,
    r: Option<(u64, Vec<u8>)>,
)
    requires
        call_ensures(WsHub::get_client_room_id, (hub, conn_id), room),
        call_ensures(WsHub::process_client_message, (hub, conn_id, msg), r),
    ensures
        hub@.connections.contains_key(conn_id) ==> room == Some(hub@.connections[conn_id].room_id)
            && r == Some((hub@.connections[conn_id].room_id, msg)),
        !hub@.connections.contains_key(conn_id) ==> room is None && r is None,
{
}

/// An update of a bucket goes to exactly the connections of the bucket, each once and in ascending
/// order; a message for one connection goes to that one.
pub proof fn law_updates_go_to_the_bucket(
    hub: &WsHub,
    bucket_id: u64,
    r: Vec<u64>,
    message: &UpdateChannelMessage,
    targets: Vec<u64>,
)
    requires
        call_ensures(WsHub::recipients, (hub, bucket_id), r),
        call_ensures(WsHub::targets, (hub, message), targets),
    ensures
        forall|c: u64| #[trigger]
            r@.contains(c) <==> hub@.buckets.contains_key(bucket_id)
                && hub@.buckets[bucket_id].contains(c),
        forall|i: int, j: int| 0 <= i < j < r@.len() ==> #[trigger] r@[i] < #[trigger] r@[j],
        forall|i: int, j: int|
            0 <= i < j < targets@.len() ==> #[trigger] targets@[i] < #[trigger] targets@[j],
        forall|c: u64| #[trigger]
            targets@.contains(c) <==> match *message {
                UpdateChannelMessage::Broadcast(update) => hub@.buckets.contains_key(
                    update.bucket_id,
                ) && hub@.buckets[update.bucket_id].contains(c),
                UpdateChannelMessage::Targeted { conn_id, .. } => c == conn_id,
            },
{
    assert forall|c: u64| #[trigger] r@.contains(c) <==> hub@.buckets.contains_key(bucket_id)
        && hub@.buckets[bucket_id].contains(c) by {
        assert(r@.to_set().contains(c) == r@.contains(c));
    }
    assert forall|c: u64| #[trigger] targets@.contains(c) <==> match *message {
        UpdateChannelMessage::Broadcast(update) => hub@.buckets.contains_key(update.bucket_id)
            && hub@.buckets[update.bucket_id].contains(c),
        UpdateChannelMessage::Targeted { conn_id, .. } => c == conn_id,
    } by {
        assert(targets@.to_set().contains(c) == targets@.contains(c));
    }
}

/// A connection that could not take an event is taken out, and only then; what is returned says
/// whether the connection is not there any more.
pub proof fn law_failed_connections_are_taken_out(
    hub: &mut WsHub,
    conn_id: u64,
    outcome: SendOutcome,
    r: bool,
)
    requires
        call_ensures(WsHub::send_targeted_update, (hub, conn_id, outcome), r),
        old(hub)@.exact(),
    ensures
        outcome == SendOutcome::Sent ==> final(hub)@ == old(hub)@,
        outcome != SendOutcome::Sent ==> connection_gone(old(hub)@, final(hub)@, conn_id),
        r <==> !final(hub)@.connections.contains_key(conn_id),
{
    lemma_connection_gone(old(hub)@, conn_id);
}

/// Whether exactly the connections of a row that could not take an event are gone and get nothing any
/// more, and everyone else gets what they got before.
pub open spec fn failed_gone(
    before: HubView,
    after: HubView,
    conns: Seq<u64>,
    outcomes: Seq<SendOutcome>,
) -> bool {
    &&& after.next_conn_id == before.next_conn_id
    &&& forall|c: u64| #[trigger]
        after.connections.contains_key(c) <==> before.connections.contains_key(c) && !failed(
            conns,
            outcomes,
            c,
        )
    &&& forall|c: u64| #[trigger]
        after.connections.contains_key(c) ==> after.connections[c] == before.connections[c]
    &&& forall|b: u64, c: u64|
        (after.buckets.contains_key(b) && #[trigger] after.buckets[b].contains(c)) ==> !failed(
            conns,
            outcomes,
            c,
        ) && before.buckets.contains_key(b) && before.buckets[b].contains(c)
    &&& forall|b: u64, c: u64|
        before.buckets.contains_key(b) && #[trigger] before.buckets[b].contains(c) && !failed(
            conns,
            outcomes,
            c,
        ) ==> after.buckets.contains_key(b) && after.buckets[b].contains(c)
}

/// After an update was sent to a row of connections, exactly those that could not take it are gone and
/// get nothing any more; everyone else gets what they got before.
pub proof fn law_only_failed_connections_are_dropped(
    hub: &mut WsHub,
    recipients: &[u64],
    outcomes: &[SendOutcome],
)
    requires
        call_ensures(WsHub::broadcast_update, (hub, recipients, outcomes), ()),
        recipients@.len() == outcomes@.len(),
        old(hub)@.exact(),
    ensures
        failed_gone(old(hub)@, final(hub)@, recipients@, outcomes@),
{
    lemma_after_sends(old(hub)@, recipients@, outcomes@);
}

proof fn lemma_failed_one_more(conns: Seq<u64>, outcomes: Seq<SendOutcome>, c: u64)
    requires
        conns.len() == outcomes.len(),
        conns.len() > 0,
    ensures
        failed(conns, outcomes, c) <==> failed(conns.drop_last(), outcomes.drop_last(), c) || (
        conns.last() == c && outcomes.last() != SendOutcome::Sent),
{
    let head = conns.drop_last();
    let ends = outcomes.drop_last();
    let n = head.len() as int;
    if failed(conns, outcomes, c) {
        let i = choose|i: int|
            0 <= i < conns.len() && #[trigger] conns[i] == c && outcomes[i] != SendOutcome::Sent;
        if i < n {
            assert(head[i] == c && ends[i] == outcomes[i]);
        }
    }
    if failed(head, ends, c) {
        let i = choose|i: int|
            0 <= i < head.len() && #[trigger] head[i] == c && ends[i] != SendOutcome::Sent;
        assert(conns[i] == c && outcomes[i] == ends[i]);
    }
    assert(conns[n] == conns.last());
}

proof fn lemma_after_sends(hub: HubView, conns: Seq<u64>, outcomes: Seq<SendOutcome>)
    requires
        conns.len() == outcomes.len(),
        hub.exact(),
    ensures
        failed_gone(hub, hub.after_sends(conns, outcomes), conns, outcomes),
        hub.after_sends(conns, outcomes).exact(),
    decreases conns.len(),
{
    if conns.len() > 0 {
        let head = conns.drop_last();
        let ends = outcomes.drop_last();
        let mid = hub.after_sends(head, ends);
        let after = hub.after_sends(conns, outcomes);
        lemma_after_sends(hub, head, ends);
        lemma_connection_gone(mid, conns.last());
        law_remove_keeps_exact(mid, conns.last());
        assert forall|c: u64| #[trigger] failed(conns, outcomes, c) <==> failed(head, ends, c) || (
        conns.last() == c && outcomes.last() != SendOutcome::Sent) by {
            lemma_failed_one_more(conns, outcomes, c);
        }
        assert forall|c: u64| #[trigger] after.connections.contains_key(c)
            <==> hub.connections.contains_key(c) && !failed(conns, outcomes, c) by {
            assert(mid.connections.contains_key(c) <==> hub.connections.contains_key(c) && !failed(
                head,
                ends,
                c,
            ));
        }
        assert forall|c: u64| #[trigger] after.connections.contains_key(c) implies
            after.connections[c] == hub.connections[c] by {
            assert(mid.connections.contains_key(c));
        }
        assert forall|b: u64, c: u64|
            (after.buckets.contains_key(b) && #[trigger] after.buckets[b].contains(c)) implies
            !failed(conns, outcomes, c) && hub.buckets.contains_key(b) && hub.buckets[b].contains(
            c,
        ) by {
            assert(mid.buckets.contains_key(b) && mid.buckets[b].contains(c));
        }
        assert forall|b: u64, c: u64|
            hub.buckets.contains_key(b) && #[trigger] hub.buckets[b].contains(c) && !failed(
                conns,
                outcomes,
                c,
            ) implies after.buckets.contains_key(b) && after.buckets[b].contains(c) by {
            assert(mid.buckets.contains_key(b) && mid.buckets[b].contains(c));
        }
    }
}

/// The connections of a bucket are told the text of the update in a message.
pub proof fn law_messages_tell_their_update(
    update: &DataUpdate,
    event: String,
    message: &UpdateChannelMessage,
    told: String,
    text: String,
)
    requires
        call_ensures(WsHub::update_event, (update,), event),
        call_ensures(WsHub::event_text, (message,), told),
        call_ensures(update_event_text, (update,), text),
        match *message {
            UpdateChannelMessage::Broadcast(inner) => inner == *update,
            UpdateChannelMessage::Targeted { msg, .. } => msg == *update,
        },
    ensures
        event@ == text@,
        told@ == text@,
{
}

} // verus!
