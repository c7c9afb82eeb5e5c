//! The hub of the websocket clients: who is connected, and who gets the updates of
//! which bucket.

use crate::collections::{ascending, lemma_take_one_more, sorted_ids, IdMap};
use crate::commands::{DataUpdate, UpdateChannelMessage};
use crate::wire::{update_event_text, update_text};
use std::collections::HashSet;
use vstd::prelude::*;
use vstd::string::*;

verus! {

broadcast use vstd::std_specs::hash::group_hash_axioms;

/// How many clients a bucket can have.
pub const MAX_WS_CLIENTS_PER_BUCKET: usize = 200;

/// How many events can wait for one client.
pub const MAX_WS_PENDING_MESSAGES: usize = 256;

/// The room of a client, and the buckets whose updates it gets.
pub struct ClientInfo {
    pub room_id: u64,
    pub buckets: HashSet<u64>,
}

#[verifier::ext_equal]
pub ghost struct ClientView {
    pub room_id: u64,
    pub buckets: Set<u64>,
}

impl View for ClientInfo {
    type V = ClientView;

    open spec fn view(&self) -> ClientView {
        ClientView { room_id: self.room_id, buckets: self.buckets@ }
    }
}

/// The connections by their identifiers, and the connections of each bucket.
pub struct WsHub {
    next_conn_id: u64,
    connections: IdMap<ClientInfo>,
    buckets: IdMap<HashSet<u64>>,
}

#[verifier::ext_equal]
pub ghost struct HubView {
    pub next_conn_id: u64,
    pub connections: Map<u64, ClientView>,
    pub buckets: Map<u64, Set<u64>>,
}

impl View for WsHub {
    type V = HubView;

    closed spec fn view(&self) -> HubView {
        HubView {
            next_conn_id: self.next_conn_id,
            connections: self.connections@,
            buckets: self.buckets@,
        }
    }
}

/// What became of an attempt to hand an event to a client.
#[derive(Debug, Clone, Copy, PartialEq, Eq, Structural)]
pub enum SendOutcome {
    Sent,
    /// Too many events wait already.
    Full,
    /// The client is gone.
    Closed,
}

impl HubView {
    /// The connections of a bucket.
    pub open spec fn subscribers(self, bucket: u64) -> Set<u64> {
        if self.buckets.contains_key(bucket) {
            self.buckets[bucket]
        } else {
            Set::empty()
        }
    }

    /// Whether a bucket has no room for a connection that is not there yet.
    pub open spec fn full_for(self, conn_id: u64, bucket: u64) -> bool {
        self.subscribers(bucket).len() >= MAX_WS_CLIENTS_PER_BUCKET && !self.subscribers(
            bucket,
        ).contains(conn_id)
    }

    /// Whether all the buckets have room for a connection.
    pub open spec fn admits(self, conn_id: u64, allowed: Set<u64>) -> bool {
        forall|bucket: u64| #[trigger]
            allowed.contains(bucket) ==> !self.full_for(conn_id, bucket)
    }

    /// The hub with a connection added.
    pub open spec fn with_client(self, conn_id: u64, room_id: u64, allowed: Set<u64>) -> HubView {
        HubView {
            next_conn_id: self.next_conn_id,
            connections: self.connections.insert(
                conn_id,
                ClientView { room_id, buckets: allowed },
            ),
            buckets: Map::new(
                |bucket: u64| self.buckets.contains_key(bucket) || allowed.contains(bucket),
                |bucket: u64|
                    if allowed.contains(bucket) {
                        self.subscribers(bucket).insert(conn_id)
                    } else {
                        self.buckets[bucket]
                    },
            ),
        }
    }

    /// The hub without a connection. Buckets that no one is left in are dropped.
    pub open spec fn without_client(self, conn_id: u64) -> HubView {
        if self.connections.contains_key(conn_id) {
            let left = self.connections[conn_id].buckets;
            HubView {
                next_conn_id: self.next_conn_id,
                connections: self.connections.remove(conn_id),
                buckets: Map::new(
                    |bucket: u64|
                        self.buckets.contains_key(bucket) && !(left.contains(bucket)
                            && self.buckets[bucket].remove(conn_id) == Set::<u64>::empty()),
                    |bucket: u64|
                        if left.contains(bucket) {
                            self.buckets[bucket].remove(conn_id)
                        } else {
                            self.buckets[bucket]
                        },
                ),
            }
        } else {
            self
        }
    }

    /// The hub after an attempt to hand an event to a connection. A connection that
    /// could not take it is dropped.
    pub open spec fn after_send(self, conn_id: u64, outcome: SendOutcome) -> HubView {
        if outcome is Sent {
            self
        } else {
            self.without_client(conn_id)
        }
    }

    /// The hub after attempts to hand an event to a row of connections.
    pub open spec fn after_sends(self, conns: Seq<u64>, outcomes: Seq<SendOutcome>) -> HubView
        decreases conns.len(),
    {
        if conns.len() == 0 {
            self
        } else {
            self.after_sends(conns.drop_last(), outcomes.drop_last()).after_send(
                conns.last(),
                outcomes.last(),
            )
        }
    }

    /// No bucket is kept without connections or with more than it can have, and every
    /// connection stands in the buckets that it is allowed.
    pub open spec fn valid(self) -> bool {
        &&& forall|bucket: u64| #[trigger]
            self.buckets.contains_key(bucket) ==> self.buckets[bucket].finite() && 0
                < self.buckets[bucket].len() <= MAX_WS_CLIENTS_PER_BUCKET
        &&& forall|conn_id: u64, bucket: u64| #[trigger]
            self.allows(conn_id, bucket) ==> self.subscribers(bucket).contains(conn_id)
    }

    /// The connections of the buckets are those that are allowed them, and their
    /// identifiers were all given out.
    pub open spec fn exact(self) -> bool {
        &&& self.valid()
        &&& forall|conn_id: u64, bucket: u64| #[trigger]
            self.subscribers(bucket).contains(conn_id) ==> self.allows(conn_id, bucket)
        &&& forall|conn_id: u64| #[trigger]
            self.connections.contains_key(conn_id) ==> conn_id < self.next_conn_id
    }

    /// Whether a connection is there and allowed a bucket.
    pub open spec fn allows(self, conn_id: u64, bucket: u64) -> bool {
        self.connections.contains_key(conn_id) && self.connections[conn_id].buckets.contains(
            bucket,
        )
    }
}

/// The update in a message on the way to the clients.
pub open spec fn update_in(message: UpdateChannelMessage) -> DataUpdate {
    match message {
        UpdateChannelMessage::Broadcast(update) => update,
        UpdateChannelMessage::Targeted { msg, .. } => msg,
    }
}

impl WsHub {
    /// A hub without clients.
    pub fn new() -> (r: WsHub)
        ensures
            r@ == (HubView {
                next_conn_id: 1,
                connections: Map::empty(),
                buckets: Map::empty(),
            }),
            r@.exact(),
    {
        WsHub { next_conn_id: 1, connections: IdMap::new(), buckets: IdMap::new() }
    }

    /// Gives out an identifier for a connection.
    pub fn allocate_connection_id(&mut self) -> (r: u64)
        ensures
            r == old(self)@.next_conn_id,
            final(self)@ == (HubView {
                next_conn_id: if r < u64::MAX {
                    (r + 1) as u64
                } else {
                    r
                },
                ..old(self)@
            }),
            old(self)@.exact() ==> final(self)@.exact() && !old(self)@.connections.contains_key(r),
    {
        let id: u64 = self.next_conn_id;
        self.next_conn_id = self.next_conn_id.saturating_add(1);
        proof {
            let before = old(self)@;
            let after = self@;
            if before.exact() {
                assert forall|bucket: u64| #[trigger] after.subscribers(bucket)
                    == before.subscribers(bucket) by {}
                assert forall|c: u64, b: u64| #[trigger] after.allows(c, b) == before.allows(
                    c,
                    b,
                ) by {}
                assert forall|bucket: u64| #[trigger] after.buckets.contains_key(
                    bucket,
                ) implies before.buckets.contains_key(bucket) by {}
                assert forall|c: u64| #[trigger] after.connections.contains_key(c) implies c
                    < after.next_conn_id by {
                    assert(before.connections.contains_key(c));
                }
                assert(after.exact());
            }
        }
        id
    }

    /// Adds a connection, if all its buckets have room for it.
    pub fn add_client(&mut self, conn_id: u64, room_id: u64, allowed_buckets: HashSet<u64>) -> (r:
        Result<(), &'static str>)
        ensures
            match r {
                Ok(_) => old(self)@.admits(conn_id, allowed_buckets@) && final(self)@ == old(
                    self,
                )@.with_client(conn_id, room_id, allowed_buckets@),
                Err(e) => !old(self)@.admits(conn_id, allowed_buckets@) && e@
                    == "bucket_client_limit_exceeded"@ && final(self)@ == old(self)@,
            },
    {
        let ids: Vec<u64> = sorted_ids(&allowed_buckets);
        let ghost allowed = allowed_buckets@;
        let mut i: usize = 0;
        while i < ids.len()
            invariant
                i <= ids@.len(),
                ids@.to_set() == allowed,
                allowed == allowed_buckets@,
                self@ == old(self)@,
                forall|k: int| 0 <= k < i ==> !self@.full_for(conn_id, #[trigger] ids@[k]),
            decreases ids@.len() - i,
        {
            match self.buckets.get(ids[i]) {
                None => {},
                Some(conns) => {
                    if conns.len() >= MAX_WS_CLIENTS_PER_BUCKET && !conns.contains(&conn_id) {
                        proof {
                            assert(ids@.to_set().contains(ids@[i as int]));
                            assert(self@.subscribers(ids@[i as int]) == conns@);
                            assert(self@.full_for(conn_id, ids@[i as int]));
                            assert(allowed.contains(ids@[i as int]));
                        }
                        return Err("bucket_client_limit_exceeded");
                    }
                },
            }
            i = i + 1;
        }
        assert(self@.admits(conn_id, allowed)) by {
            assert forall|bucket: u64| #[trigger] allowed.contains(bucket) implies !self@.full_for(
                conn_id,
                bucket,
            ) by {
                assert(ids@.to_set().contains(bucket));
                let k = choose|k: int| 0 <= k < ids@.len() && ids@[k] == bucket;
                assert(!self@.full_for(conn_id, ids@[k]));
            }
        }
        self.connections.insert(conn_id, ClientInfo { room_id, buckets: allowed_buckets });
        let ghost goal = old(self)@.with_client(conn_id, room_id, allowed);
        let mut j: usize = 0;
        while j < ids.len()
            invariant
                j <= ids@.len(),
                ids@.to_set() == allowed,
                ascending(ids@),
                goal == old(self)@.with_client(conn_id, room_id, allowed),
                self@.next_conn_id == goal.next_conn_id,
                self@.connections == goal.connections,
                forall|bucket: u64| #[trigger]
                    self@.buckets.contains_key(bucket) <==> old(self)@.buckets.contains_key(bucket)
                        || ids@.take(j as int).contains(bucket),
                forall|bucket: u64|
                    ids@.take(j as int).contains(bucket) ==> #[trigger] self@.buckets[bucket]
                        == goal.buckets[bucket],
                forall|bucket: u64|
                    !ids@.take(j as int).contains(bucket) && old(self)@.buckets.contains_key(bucket)
                        ==> #[trigger] self@.buckets[bucket] == old(self)@.buckets[bucket],
            decreases ids@.len() - j,
        {
            let bucket: u64 = ids[j];
            proof {
                assert(ids@.to_set().contains(bucket));
                lemma_take_one_more(ids@, j as int);
            }
            let ghost before = self@.buckets;
            let mut conns: HashSet<u64> = match self.buckets.remove(bucket) {
                Some(conns) => conns,
                None => HashSet::new(),
            };
            proof {
                assert(before.contains_key(bucket) == old(self)@.buckets.contains_key(bucket));
                if before.contains_key(bucket) {
                    assert(before[bucket] == old(self)@.buckets[bucket]);
                }
                assert(conns@ =~= old(self)@.subscribers(bucket));
            }
            conns.insert(conn_id);
            self.buckets.insert(bucket, conns);
            proof {
                assert(self@.buckets =~= before.insert(bucket, conns@));
                assert(conns@ == goal.buckets[bucket]);
            }
            j = j + 1;
        }
        proof {
            assert(ids@.take(j as int) =~= ids@);
            assert forall|bucket: u64| ids@.contains(bucket) == allowed.contains(bucket) by {
                assert(ids@.to_set().contains(bucket) == allowed.contains(bucket));
            }
            assert(self@.buckets =~= goal.buckets);
        }
        Ok(())
    }

    /// The room of a connection, if it is there.
    pub fn get_client_room_id(&self, conn_id: u64) -> (r: Option<u64>)
        ensures
            r == (if self@.connections.contains_key(conn_id) {
                Some(self@.connections[conn_id].room_id)
            } else {
                None
            }),
    {
        match self.connections.get(conn_id) {
            Some(client) => Some(client.room_id),
            None => None,
        }
    }

    /// Takes a connection out of the hub.
    pub fn remove_client(&mut self, conn_id: u64)
        ensures
            final(self)@ == old(self)@.without_client(conn_id),
    {
        match self.connections.remove(conn_id) {
            None => {
                assert(self@.connections =~= old(self)@.connections);
            },
            Some(client) => {
                let ids: Vec<u64> = sorted_ids(&client.buckets);
                let ghost left = client.buckets@;
                let ghost goal = old(self)@.without_client(conn_id);
                let mut j: usize = 0;
                while j < ids.len()
                    invariant
                        j <= ids@.len(),
                        ids@.to_set() == left,
                        ascending(ids@),
                        old(self)@.connections.contains_key(conn_id),
                        left == old(self)@.connections[conn_id].buckets,
                        goal == old(self)@.without_client(conn_id),
                        self@.next_conn_id == goal.next_conn_id,
                        self@.connections == goal.connections,
                        forall|bucket: u64|
                            ids@.take(j as int).contains(bucket) ==> (
                            #[trigger] self@.buckets.contains_key(bucket)
                                == goal.buckets.contains_key(bucket)),
                        forall|bucket: u64|
                            ids@.take(j as int).contains(bucket) && goal.buckets.contains_key(
                                bucket,
                            ) ==> #[trigger] self@.buckets[bucket] == goal.buckets[bucket],
                        forall|bucket: u64|
                            !ids@.take(j as int).contains(bucket) ==> (
                            #[trigger] self@.buckets.contains_key(bucket)
                                == old(self)@.buckets.contains_key(bucket)),
                        forall|bucket: u64|
                            !ids@.take(j as int).contains(bucket) && old(
                                self,
                            )@.buckets.contains_key(bucket) ==> #[trigger] self@.buckets[bucket]
                                == old(self)@.buckets[bucket],
                    decreases ids@.len() - j,
                {
                    let bucket: u64 = ids[j];
                    proof {
                        assert(ids@.to_set().contains(bucket));
                        lemma_take_one_more(ids@, j as int);
                    }
                    let ghost before = self@.buckets;
                    match self.buckets.remove(bucket) {
                        None => {
                            assert(self@.buckets =~= before);
                        },
                        Some(mut conns) => {
                            conns.remove(&conn_id);
                            let rest: Vec<u64> = sorted_ids(&conns);
                            proof {
                                assert((rest@.len() == 0) == (conns@ == Set::<u64>::empty())) by {
                                    if rest@.len() == 0 {
                                        assert(conns@ =~= Set::<u64>::empty());
                                    }
                                }
                            }
                            if rest.len() > 0 {
                                self.buckets.insert(bucket, conns);
                            }
                        },
                    }
                    j = j + 1;
                }
                proof {
                    assert(ids@.take(j as int) =~= ids@);
                    assert forall|bucket: u64| ids@.contains(bucket) == left.contains(bucket) by {
                        assert(ids@.to_set().contains(bucket) == left.contains(bucket));
                    }
                    assert(self@.buckets =~= goal.buckets);
                }
            },
        }
    }

    /// The message of a client together with the room that it belongs to; nothing if
    /// the connection is not there.
    pub fn process_client_message(&self, conn_id: u64, msg: Vec<u8>) -> (r: Option<(u64, Vec<u8>)>)
        ensures
            r == (if self@.connections.contains_key(conn_id) {
                Some((self@.connections[conn_id].room_id, msg))
            } else {
                None
            }),
    {
        match self.connections.get(conn_id) {
            Some(client) => Some((client.room_id, msg)),
            None => None,
        }
    }

    /// The JSON text of what a client is told of an update.
    pub fn update_event(update: &DataUpdate) -> (r: String)
        ensures
            r@ == update_text(update@),
    {
        update_event_text(update)
    }

    /// Takes note of an attempt to hand an event to a connection. A connection that
    /// could not take it is dropped. Tells whether the connection is not there (any more).
    pub fn send_targeted_update(&mut self, client_id: u64, outcome: SendOutcome) -> (r: bool)
        ensures
            final(self)@ == old(self)@.after_send(client_id, outcome),
            r == (!old(self)@.connections.contains_key(client_id) || !(outcome is Sent)),
    {
        if !self.connections.contains(client_id) {
            return true;
        }
        match outcome {
            SendOutcome::Sent => false,
            SendOutcome::Full | SendOutcome::Closed => {
                self.remove_client(client_id);
                true
            },
        }
    }

    /// The connections that get the updates of a bucket, in ascending order.
    pub fn recipients(&self, bucket_id: u64) -> (r: Vec<u64>)
        ensures
            ascending(r@),
            r@.to_set() == self@.subscribers(bucket_id),
    {
        match self.buckets.get(bucket_id) {
            Some(conns) => sorted_ids(conns),
            None => {
                let none: Vec<u64> = Vec::new();
                assert(none@.to_set() =~= Set::<u64>::empty());
                none
            },
        }
    }

    /// The connections that a message on the way to the clients is for, in ascending order.
    pub fn targets(&self, message: &UpdateChannelMessage) -> (r: Vec<u64>)
        ensures
            ascending(r@),
            r@.to_set() == match *message {
                UpdateChannelMessage::Broadcast(update) => self@.subscribers(update.bucket_id),
                UpdateChannelMessage::Targeted { conn_id, .. } => set![conn_id],
            },
    {
        match message {
            UpdateChannelMessage::Broadcast(update) => self.recipients(update.bucket_id),
            UpdateChannelMessage::Targeted { conn_id, .. } => {
                let mut one: Vec<u64> = Vec::new();
                one.push(*conn_id);
                proof {
                    assert(one@[0] == *conn_id);
                    assert(one@.to_set() =~= set![*conn_id]);
                }
                one
            },
        }
    }

    /// The JSON text of what the clients are told of a message on the way to them.
    pub fn event_text(message: &UpdateChannelMessage) -> (r: String)
        ensures
            r@ == update_text(update_in(*message)@),
    {
        match message {
            UpdateChannelMessage::Broadcast(update) => WsHub::update_event(update),
            UpdateChannelMessage::Targeted { msg, .. } => WsHub::update_event(msg),
        }
    }

    /// Takes note of the attempts to hand an event to each of a row of connections.
    pub fn broadcast_update(&mut self, recipients: &[u64], outcomes: &[SendOutcome])
        requires
            recipients@.len() == outcomes@.len(),
        ensures
            final(self)@ == old(self)@.after_sends(recipients@, outcomes@),
    {
        let mut i: usize = 0;
        while i < recipients.len()
            invariant
                i <= recipients@.len(),
                recipients@.len() == outcomes@.len(),
                self@ == old(self)@.after_sends(
                    recipients@.take(i as int),
                    outcomes@.take(i as int),
                ),
            decreases recipients@.len() - i,
        {
            self.send_targeted_update(recipients[i], outcomes[i]);
            proof {
                assert(recipients@.take(i + 1).drop_last() =~= recipients@.take(i as int));
                assert(outcomes@.take(i + 1).drop_last() =~= outcomes@.take(i as int));
            }
            i = i + 1;
        }
        assert(recipients@.take(i as int) =~= recipients@);
        assert(outcomes@.take(i as int) =~= outcomes@);
    }
}

} // verus!
