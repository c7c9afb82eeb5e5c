//! The hub of the server with named containers: the websocket clients of each room, and
//! who gets an update.

use crate::collections::{lemma_take_one_more, texts, IdMap, StrMap, StrSet};
use crate::json::Value;
use crate::rate_limiter::{
    admits, after_call, gone_at, law_keys_are_independent, lemma_left, only_gone_dropped, swept,
    times_of, RateLimiter,
};
use crate::text::{decimal, push_decimal, same};
use vstd::prelude::*;
use vstd::string::*;

verus! {

/// How many clients a room can have.
pub const MAX_WS_CLIENTS_PER_ROOM: usize = 200;

/// How many events can wait for one client.
pub const MAX_WS_PENDING_MESSAGES: usize = 256;

/// The containers that a client may see.
pub struct ClientInfo {
    pub allowed_containers: StrSet,
}

impl View for ClientInfo {
    type V = Set<Seq<char>>;

    open spec fn view(&self) -> Set<Seq<char>> {
        self.allowed_containers@
    }
}

/// The clients of each room.
pub struct WsHub {
    rooms: IdMap<StrMap<ClientInfo>>,
}

impl View for WsHub {
    type V = Map<u64, Map<Seq<char>, Set<Seq<char>>>>;

    closed spec fn view(&self) -> Map<u64, Map<Seq<char>, Set<Seq<char>>>> {
        self.rooms@
    }
}

/// A change in a room. A star for the container and the key stands for a change of the
/// room as a whole; without a value the key was deleted.
#[derive(Debug)]
pub struct RoomUpdate {
    pub room_id: u64,
    pub container: String,
    pub key: String,
    pub value: Option<Value>,
    pub room_counter: u64,
}

/// What a client is told of a change.
#[derive(Debug)]
pub enum RoomEvent {
    RoomChanged { room_id: u64, room_counter: u64 },
    Updated { room_id: u64, room_counter: u64, container: String, key: String, value: Value },
    Deleted { room_id: u64, room_counter: u64, container: String, key: String },
}

/// What became of an update for one client.
#[derive(Debug, Clone, Copy, PartialEq, Eq, Structural)]
pub enum Delivery {
    Sent,
    /// The client has had too many updates lately.
    RateLimited,
    /// Too many events wait already.
    Full,
    /// The client is gone.
    Closed,
}

/// The clients of a room.
pub open spec fn clients_of(
    hub: Map<u64, Map<Seq<char>, Set<Seq<char>>>>,
    room_id: u64,
) -> Map<Seq<char>, Set<Seq<char>>> {
    if hub.contains_key(room_id) {
        hub[room_id]
    } else {
        Map::empty()
    }
}

/// The hub with the clients of a room put in place. A room without clients is dropped.
pub open spec fn with_clients(
    hub: Map<u64, Map<Seq<char>, Set<Seq<char>>>>,
    room_id: u64,
    clients: Map<Seq<char>, Set<Seq<char>>>,
) -> Map<u64, Map<Seq<char>, Set<Seq<char>>>> {
    if clients.dom() == Set::<Seq<char>>::empty() {
        hub.remove(room_id)
    } else {
        hub.insert(room_id, clients)
    }
}

/// No room is kept without clients or with more than it can have.
pub open spec fn valid(hub: Map<u64, Map<Seq<char>, Set<Seq<char>>>>) -> bool {
    forall|room_id: u64| #[trigger]
        hub.contains_key(room_id) ==> hub[room_id].dom().finite() && 0 < hub[room_id].dom().len()
            <= MAX_WS_CLIENTS_PER_ROOM
}

/// Whether a client gets the updates of a container. The container of the server goes
/// to no one.
pub open spec fn interested(container: Seq<char>, allowed: Set<Seq<char>>) -> bool {
    container != "server_only"@ && (container == "*"@ || container == "public"@
        || allowed.contains(container))
}

/// The clients of a room that get an update.
pub open spec fn recipients(
    hub: Map<u64, Map<Seq<char>, Set<Seq<char>>>>,
    room_id: u64,
    container: Seq<char>,
) -> Set<Seq<char>> {
    Set::new(
        |client: Seq<char>|
            clients_of(hub, room_id).contains_key(client) && interested(
                container,
                clients_of(hub, room_id)[client],
            ),
    )
}

/// The key under which the updates for a client are counted.
pub open spec fn rate_key(room_id: u64, client: Seq<char>) -> Seq<char> {
    decimal(room_id as nat) + ":"@ + client
}

/// The rate limiter after it was asked for a row of clients at one time.
pub open spec fn after_asking(
    limiter: Map<Seq<char>, Seq<u128>>,
    room_id: u64,
    clients: Seq<Seq<char>>,
    limit: usize,
    window: u128,
    now: u128,
) -> Map<Seq<char>, Seq<u128>>
    decreases clients.len(),
{
    if clients.len() == 0 {
        limiter
    } else {
        after_call(
            after_asking(limiter, room_id, clients.drop_last(), limit, window, now),
            rate_key(room_id, clients.last()),
            limit,
            window,
            now,
        )
    }
}

proof fn lemma_rate_key_injective(room_id: u64, a: Seq<char>, b: Seq<char>)
    requires
        rate_key(room_id, a) == rate_key(room_id, b),
    ensures
        a == b,
{
    let head = decimal(room_id as nat) + ":"@;
    assert(rate_key(room_id, a).skip(head.len() as int) =~= a);
    assert(rate_key(room_id, b).skip(head.len() as int) =~= b);
}

/// Asking for some clients does not change the answer for another one.
pub proof fn law_asking_is_independent(
    limiter: Map<Seq<char>, Seq<u128>>,
    room_id: u64,
    clients: Seq<Seq<char>>,
    other: Seq<char>,
    limit: usize,
    window: u128,
    now: u128,
)
    requires
        !clients.contains(other),
    ensures
        admits(
            after_asking(limiter, room_id, clients, limit, window, now),
            rate_key(room_id, other),
            limit,
            window,
            now,
        ) == admits(limiter, rate_key(room_id, other), limit, window, now),
    decreases clients.len(),
{
    if clients.len() > 0 {
        let head = clients.drop_last();
        assert(!head.contains(other)) by {
            if head.contains(other) {
                let i = choose|i: int| 0 <= i < head.len() && head[i] == other;
                assert(clients[i] == other);
            }
        }
        assert(clients.last() != other) by {
            assert(clients.contains(clients.last()));
        }
        law_asking_is_independent(limiter, room_id, head, other, limit, window, now);
        if rate_key(room_id, clients.last()) == rate_key(room_id, other) {
            lemma_rate_key_injective(room_id, clients.last(), other);
        }
        law_keys_are_independent(
            after_asking(limiter, room_id, head, limit, window, now),
            rate_key(room_id, clients.last()),
            rate_key(room_id, other),
            limit,
            window,
            now,
        );
    }
}

/// How many of a row of deliveries came to the given end.
pub open spec fn count_of(deliveries: Seq<Delivery>, end: Delivery) -> nat {
    deliveries.filter(|d: Delivery| d == end).len()
}

/// The clients without those of a row whose delivery failed.
pub open spec fn after_deliveries(
    clients: Map<Seq<char>, Set<Seq<char>>>,
    asked: Seq<Seq<char>>,
    deliveries: Seq<Delivery>,
) -> Map<Seq<char>, Set<Seq<char>>>
    decreases asked.len(),
{
    if asked.len() == 0 {
        clients
    } else {
        let before = after_deliveries(clients, asked.drop_last(), deliveries.drop_last());
        if deliveries.last() is Sent {
            before
        } else {
            before.remove(asked.last())
        }
    }
}

/// What a client is told of a change.
pub fn room_event(update: &RoomUpdate) -> (r: RoomEvent)
    ensures
        match r {
            RoomEvent::RoomChanged { room_id, room_counter } => update.container@ == "*"@
                && update.key@ == "*"@ && room_id == update.room_id && room_counter
                == update.room_counter,
            RoomEvent::Updated { room_id, room_counter, container, key, value } => {
                &&& !(update.container@ == "*"@ && update.key@ == "*"@)
                &&& update.value matches Some(v)
                &&& value@ == v@
                &&& room_id == update.room_id
                &&& room_counter == update.room_counter
                &&& container@ == update.container@
                &&& key@ == update.key@
            },
            RoomEvent::Deleted { room_id, room_counter, container, key } => !(update.container@
                == "*"@ && update.key@ == "*"@) && update.value is None && room_id
                == update.room_id && room_counter == update.room_counter && container@
                == update.container@ && key@ == update.key@,
        },
{
    if same(update.container.as_str(), "*") && same(update.key.as_str(), "*") {
        return RoomEvent::RoomChanged {
            room_id: update.room_id,
            room_counter: update.room_counter,
        };
    }
    match &update.value {
        Some(value) => RoomEvent::Updated {
            room_id: update.room_id,
            room_counter: update.room_counter,
            container: update.container.clone(),
            key: update.key.clone(),
            value: value.clone(),
        },
        None => RoomEvent::Deleted {
            room_id: update.room_id,
            room_counter: update.room_counter,
            container: update.container.clone(),
            key: update.key.clone(),
        },
    }
}

fn is_interested(container: &str, client: &ClientInfo) -> (r: bool)
    ensures
        r == interested(container@, client@),
{
    !same(container, "server_only") && (same(container, "*") || same(container, "public")
        || client.allowed_containers.contains(container))
}

fn make_rate_key(room_id: u64, client: &str) -> (r: String)
    ensures
        r@ == rate_key(room_id, client@),
{
    let mut key: String = String::new();
    push_decimal(&mut key, room_id);
    key.append(":");
    key.append(client);
    assert(key@ =~= rate_key(room_id, client@));
    key
}

/// The clients to send an update to, and for each whether the rate limit lets it through.
pub struct BroadcastPlan {
    pub clients: Vec<String>,
    pub admitted: Vec<bool>,
}

impl WsHub {
    /// A hub without clients.
    pub fn new() -> (r: WsHub)
        ensures
            r@ == Map::<u64, Map<Seq<char>, Set<Seq<char>>>>::empty(),
            valid(r@),
    {
        WsHub { rooms: IdMap::new() }
    }

    /// Adds a client to a room, unless the room is full.
    pub fn add_client(&mut self, room_id: u64, client_id: &str, client: ClientInfo) -> (r: Result<
        (),
        &'static str,
    >)
        ensures
            ({
                let clients = clients_of(old(self)@, room_id);
                match r {
                    Ok(_) => clients.dom().len() < MAX_WS_CLIENTS_PER_ROOM && final(self)@ == old(
                        self,
                    )@.insert(room_id, clients.insert(client_id@, client@)),
                    Err(e) => clients.dom().len() >= MAX_WS_CLIENTS_PER_ROOM && e@
                        == "room_client_limit_exceeded"@ && final(self)@ == old(self)@,
                }
            }),
            valid(old(self)@) ==> valid(final(self)@),
    {
        let full: bool = match self.rooms.get(room_id) {
            Some(clients) => clients.len() >= MAX_WS_CLIENTS_PER_ROOM,
            None => false,
        };
        if full {
            return Err("room_client_limit_exceeded");
        }
        let mut clients: StrMap<ClientInfo> = match self.rooms.remove(room_id) {
            Some(clients) => clients,
            None => StrMap::new(),
        };
        let ghost before = clients@;
        clients.insert(client_id, client);
        self.rooms.insert(room_id, clients);
        proof {
            assert(self@ =~= old(self)@.insert(room_id, clients@));
            if valid(old(self)@) {
                assert(before.dom().finite());
                assert(clients@.dom() =~= before.dom().insert(client_id@));
                assert(clients@.dom().contains(client_id@));
                assert forall|id: u64| #[trigger] self@.contains_key(id) implies self@[
                    id
                ].dom().finite() && 0 < self@[id].dom().len() <= MAX_WS_CLIENTS_PER_ROOM by {
                    if id != room_id {
                        assert(old(self)@.contains_key(id));
                    }
                }
            }
        }
        Ok(())
    }

    /// Puts the clients of a room in place.
    fn put_clients(&mut self, room_id: u64, clients: StrMap<ClientInfo>)
        ensures
            final(self)@ == with_clients(old(self)@.remove(room_id), room_id, clients@),
    {
        self.rooms.remove(room_id);
        if clients.len() > 0 {
            proof {
                assert(clients@.dom() != Set::<Seq<char>>::empty());
            }
            self.rooms.insert(room_id, clients);
        } else {
            proof {
                assert(clients@.dom() =~= Set::<Seq<char>>::empty());
                assert(self@ =~= old(self)@.remove(room_id).remove(room_id));
            }
        }
    }

    /// Takes a client out of a room.
    pub fn remove_client(&mut self, room_id: u64, client_id: &str)
        ensures
            final(self)@ == (if old(self)@.contains_key(room_id) {
                with_clients(old(self)@, room_id, old(self)@[room_id].remove(client_id@))
            } else {
                old(self)@
            }),
    {
        match self.rooms.remove(room_id) {
            None => {
                assert(self@ =~= old(self)@);
            },
            Some(mut clients) => {
                clients.remove(client_id);
                self.put_clients(room_id, clients);
                assert(self@ =~= with_clients(
                    old(self)@,
                    room_id,
                    old(self)@[room_id].remove(client_id@),
                ));
            },
        }
    }

    /// Takes a room with all its clients out of the hub.
    pub fn remove_room(&mut self, room_id: u64)
        ensures
            final(self)@ == old(self)@.remove(room_id),
    {
        self.rooms.remove(room_id);
    }

    /// Finds the clients that get an update, and asks the rate limiter for each of them.
    pub fn plan_broadcast(
        &self,
        update: &RoomUpdate,
        limiter: &mut RateLimiter,
        limit: usize,
        window: u128,
        now: u128,
    ) -> (r: BroadcastPlan)
        ensures
            texts(r.clients@).no_duplicates(),
            texts(r.clients@).to_set() == recipients(self@, update.room_id, update.container@),
            r.admitted@.len() == r.clients@.len(),
            forall|i: int|
                0 <= i < r.clients@.len() ==> #[trigger] r.admitted@[i] == admits(
                    old(limiter)@,
                    rate_key(update.room_id, texts(r.clients@)[i]),
                    limit,
                    window,
                    now,
                ),
            final(limiter)@ == after_asking(
                old(limiter)@,
                update.room_id,
                texts(r.clients@),
                limit,
                window,
                now,
            ),
    {
        let mut clients: Vec<String> = Vec::new();
        let mut admitted: Vec<bool> = Vec::new();
        let ghost goal = recipients(self@, update.room_id, update.container@);
        match self.rooms.get(update.room_id) {
            None => {
                proof {
                    assert(texts(clients@) =~= Seq::<Seq<char>>::empty());
                    assert(texts(clients@).to_set() =~= goal);
                }
            },
            Some(room) => {
                let n: usize = room.len();
                let mut i: usize = 0;
                assert(texts(clients@) =~= Seq::<Seq<char>>::empty());
                assert(room.order().take(0) =~= Seq::<Seq<char>>::empty());
                while i < n
                    invariant
                        i <= n,
                        n == room.order().len(),
                        room.order().no_duplicates(),
                        room.order().to_set() == room@.dom(),
                        self@.contains_key(update.room_id),
                        room@ == self@[update.room_id],
                        goal == recipients(self@, update.room_id, update.container@),
                        texts(clients@).no_duplicates(),
                        forall|c: Seq<char>| #[trigger]
                            texts(clients@).contains(c) <==> room.order().take(i as int).contains(c)
                                && goal.contains(c),
                        admitted@.len() == clients@.len(),
                        forall|k: int|
                            0 <= k < clients@.len() ==> #[trigger] admitted@[k] == admits(
                                old(limiter)@,
                                rate_key(update.room_id, texts(clients@)[k]),
                                limit,
                                window,
                                now,
                            ),
                        limiter@ == after_asking(
                            old(limiter)@,
                            update.room_id,
                            texts(clients@),
                            limit,
                            window,
                            now,
                        ),
                    decreases n - i,
                {
                    let name: &str = room.key_at(i);
                    let ghost asked = texts(clients@);
                    let client: &ClientInfo = room.value_at(i);
                    proof {
                        lemma_take_one_more(room.order(), i as int);
                    }
                    if is_interested(update.container.as_str(), client) {
                        let key: String = make_rate_key(update.room_id, name);
                        proof {
                            law_asking_is_independent(
                                old(limiter)@,
                                update.room_id,
                                asked,
                                name@,
                                limit,
                                window,
                                now,
                            );
                        }
                        let pass: bool = limiter.allow(key.as_str(), limit, window, now);
                        clients.push(name.to_string());
                        admitted.push(pass);
                        proof {
                            assert(texts(clients@) =~= asked.push(name@));
                            assert(asked.push(name@).drop_last() =~= asked);
                            assert(!asked.contains(name@));
                            assert forall|a: int, b: int|
                                0 <= a < texts(clients@).len() && 0 <= b < texts(clients@).len()
                                    && a != b implies texts(clients@)[a] != texts(clients@)[b] by {
                                if a < asked.len() && b < asked.len() {
                                    assert(asked[a] != asked[b]);
                                } else if a < asked.len() {
                                    assert(asked.contains(asked[a]));
                                } else {
                                    assert(asked.contains(asked[b]));
                                }
                            }
                            assert forall|c: Seq<char>| #[trigger] texts(clients@).contains(c)
                                == (asked.contains(c) || c == name@) by {
                                if asked.contains(c) {
                                    let j = choose|j: int| 0 <= j < asked.len() && asked[j] == c;
                                    assert(texts(clients@)[j] == c);
                                }
                                assert(texts(clients@)[asked.len() as int] == name@);
                            }
                            assert forall|k: int| 0 <= k < clients@.len() implies
                                #[trigger] admitted@[k] == admits(
                                old(limiter)@,
                                rate_key(update.room_id, texts(clients@)[k]),
                                limit,
                                window,
                                now,
                            ) by {
                                if k < asked.len() {
                                    assert(texts(clients@)[k] == asked[k]);
                                }
                            }
                        }
                    }
                    i = i + 1;
                }
                proof {
                    assert(room.order().take(n as int) =~= room.order());
                    assert forall|c: Seq<char>| texts(clients@).to_set().contains(c)
                        == goal.contains(c) by {
                        assert(room.order().to_set().contains(c) == room@.dom().contains(c));
                        assert(texts(clients@).contains(c) <==> room.order().contains(c)
                            && goal.contains(c));
                    }
                    assert(texts(clients@).to_set() =~= goal);
                }
            },
        }
        BroadcastPlan { clients, admitted }
    }

    /// Takes note of what became of an update for each of a row of clients. Clients that
    /// did not get it are dropped. Returns how many were stopped by the rate limit, and
    /// for how many too many events were waiting.
    pub fn finish_broadcast(&mut self, room_id: u64, clients: &[String], deliveries: &[Delivery])
        -> (r: (u64, u64))
        requires
            clients@.len() == deliveries@.len(),
        ensures
            final(self)@ == (if old(self)@.contains_key(room_id) {
                with_clients(
                    old(self)@,
                    room_id,
                    after_deliveries(old(self)@[room_id], texts(clients@), deliveries@),
                )
            } else {
                old(self)@
            }),
            r.0 == count_of(deliveries@, Delivery::RateLimited),
            r.1 == count_of(deliveries@, Delivery::Full),
    {
        let counts: (u64, u64) = count_failures(deliveries);
        match self.rooms.remove(room_id) {
            None => {
                assert(self@ =~= old(self)@);
            },
            Some(mut room) => {
                let ghost all = texts(clients@);
                let ghost start = room@;
                let mut i: usize = 0;
                while i < clients.len()
                    invariant
                        i <= clients@.len(),
                        clients@.len() == deliveries@.len(),
                        all == texts(clients@),
                        room@ == after_deliveries(
                            start,
                            all.take(i as int),
                            deliveries@.take(i as int),
                        ),
                    decreases clients@.len() - i,
                {
                    proof {
                        assert(all.take(i + 1).drop_last() =~= all.take(i as int));
                        assert(deliveries@.take(i + 1).drop_last() =~= deliveries@.take(i as int));
                        assert(all.take(i + 1).last() == clients@[i as int]@);
                    }
                    match deliveries[i] {
                        Delivery::Sent => {},
                        _ => {
                            room.remove(clients[i].as_str());
                        },
                    }
                    i = i + 1;
                }
                proof {
                    assert(all.take(i as int) =~= all);
                    assert(deliveries@.take(i as int) =~= deliveries@);
                }
                self.put_clients(room_id, room);
                assert(self@ =~= with_clients(old(self)@, room_id, room@));
            },
        }
        counts
    }
}

fn count_failures(deliveries: &[Delivery]) -> (r: (u64, u64))
    ensures
        r.0 == count_of(deliveries@, Delivery::RateLimited),
        r.1 == count_of(deliveries@, Delivery::Full),
{
    let mut limited: u64 = 0;
    let mut full: u64 = 0;
    let mut i: usize = 0;
    proof {
        reveal(Seq::filter);
    }
    while i < deliveries.len()
        invariant
            i <= deliveries@.len(),
            limited == count_of(deliveries@.take(i as int), Delivery::RateLimited),
            full == count_of(deliveries@.take(i as int), Delivery::Full),
            limited <= i,
            full <= i,
        decreases deliveries@.len() - i,
    {
        proof {
            reveal(Seq::filter);
            let next = deliveries@.take(i + 1);
            assert(next.drop_last() =~= deliveries@.take(i as int));
        }
        match deliveries[i] {
            Delivery::RateLimited => {
                limited = limited + 1;
            },
            Delivery::Full => {
                full = full + 1;
            },
            _ => {},
        }
        i = i + 1;
    }
    assert(deliveries@.take(i as int) =~= deliveries@);
    (limited, full)
}

/// An update of the server's own container goes to no client.
pub proof fn law_server_only_stays(
    hub: Map<u64, Map<Seq<char>, Set<Seq<char>>>>,
    room_id: u64,
)
    ensures
        recipients(hub, room_id, "server_only"@) == Set::<Seq<char>>::empty(),
{
    assert(recipients(hub, room_id, "server_only"@) =~= Set::<Seq<char>>::empty());
}

/// Whether a client of a row did not get an update.
pub open spec fn missed(asked: Seq<Seq<char>>, deliveries: Seq<Delivery>, client: Seq<char>) -> bool {
    exists|i: int|
        0 <= i < asked.len() && #[trigger] asked[i] == client && !(deliveries[i] is Sent)
}

/// After an update the clients that got it are still there, and those that did not are not.
pub proof fn law_failed_clients_are_dropped(
    clients: Map<Seq<char>, Set<Seq<char>>>,
    asked: Seq<Seq<char>>,
    deliveries: Seq<Delivery>,
)
    requires
        asked.len() == deliveries.len(),
    ensures
        forall|c: Seq<char>| #[trigger]
            after_deliveries(clients, asked, deliveries).contains_key(c) <==> (
            clients.contains_key(c) && !missed(asked, deliveries, c)),
        forall|c: Seq<char>| #[trigger]
            after_deliveries(clients, asked, deliveries).contains_key(c) ==> after_deliveries(
                clients,
                asked,
                deliveries,
            )[c] == clients[c],
    decreases asked.len(),
{
    if asked.len() > 0 {
        let head = asked.drop_last();
        let ends = deliveries.drop_last();
        law_failed_clients_are_dropped(clients, head, ends);
        assert forall|c: Seq<char>| #[trigger] missed(asked, deliveries, c) == (missed(
            head,
            ends,
            c,
        ) || (c == asked.last() && !(deliveries.last() is Sent))) by {
            if missed(head, ends, c) {
                let i = choose|i: int|
                    0 <= i < head.len() && #[trigger] head[i] == c && !(ends[i] is Sent);
                assert(asked[i] == c);
            }
            if c == asked.last() && !(deliveries.last() is Sent) {
                assert(asked[asked.len() - 1] == c);
            }
            if missed(asked, deliveries, c) {
                let i = choose|i: int|
                    0 <= i < asked.len() && #[trigger] asked[i] == c && !(deliveries[i] is Sent);
                if i < head.len() {
                    assert(head[i] == c);
                }
            }
        }
        let before = after_deliveries(clients, head, ends);
        let after = after_deliveries(clients, asked, deliveries);
        assert forall|c: Seq<char>| #[trigger] after.contains_key(c) <==> (clients.contains_key(c)
            && !missed(asked, deliveries, c)) by {
            assert(before.contains_key(c) <==> (clients.contains_key(c) && !missed(head, ends, c)));
        }
        assert forall|c: Seq<char>| #[trigger] after.contains_key(c) implies after[c]
            == clients[c] by {
            assert(before.contains_key(c));
        }
    }
}

// ---------------------------------------------------------------------------
// What callers can rely on
// ---------------------------------------------------------------------------

/// A client of the room gets an update exactly if the container is the star, the public one or
/// one of those that the client was allowed; of the container of the server no one gets any. Each
/// gets it once.
pub proof fn law_updates_go_to_who_may_see_them(
    hub: &WsHub,
    update: &RoomUpdate,
    limiter: &mut RateLimiter,
    limit: usize,
    window: u128,
    now: u128,
    r: BroadcastPlan,
)
    requires
        call_ensures(WsHub::plan_broadcast, (hub, update, limiter, limit, window, now), r),
    ensures
        forall|i: int, j: int|
            0 <= i < j < r.clients@.len() ==> (#[trigger] r.clients@[i])@ != (
            #[trigger] r.clients@[j])@,
        forall|client: Seq<char>| #[trigger]
            texts(r.clients@).contains(client) <==> {
                &&& hub@.contains_key(update.room_id)
                &&& hub@[update.room_id].contains_key(client)
                &&& update.container@ != "server_only"@
                &&& update.container@ == "*"@ || update.container@ == "public"@
                    || hub@[update.room_id][client].contains(update.container@)
            },
{
    assert forall|i: int, j: int| 0 <= i < j < r.clients@.len() implies (#[trigger] r.clients@[i])@
        != (#[trigger] r.clients@[j])@ by {
        assert(texts(r.clients@)[i] != texts(r.clients@)[j]);
    }
    assert forall|client: Seq<char>| #[trigger] texts(r.clients@).contains(client) <==> {
        &&& hub@.contains_key(update.room_id)
        &&& hub@[update.room_id].contains_key(client)
        &&& update.container@ != "server_only"@
        &&& update.container@ == "*"@ || update.container@ == "public"@
            || hub@[update.room_id][client].contains(update.container@)
    } by {
        assert(texts(r.clients@).to_set().contains(client) == texts(r.clients@).contains(client));
    }
}

/// For each client that gets an update the rate limit of its own is asked: it is let through
/// exactly if fewer than `limit` of the times counted for it in this room lie within the window.
pub proof fn law_updates_are_limited_by_client(
    hub: &WsHub,
    update: &RoomUpdate,
    limiter: &mut RateLimiter,
    limit: usize,
    window: u128,
    now: u128,
    r: BroadcastPlan,
    i: int,
)
    requires
        call_ensures(WsHub::plan_broadcast, (hub, update, limiter, limit, window, now), r),
        0 <= i < r.clients@.len(),
    ensures
        r.admitted@.len() == r.clients@.len(),
        ({
            let key = decimal(update.room_id as nat) + ":"@ + r.clients@[i]@;
            exists|gone: int| #[trigger]
                gone_at(times_of(old(limiter)@, key), gone, window, now) && (r.admitted@[i]
                    <==> times_of(old(limiter)@, key).len() - gone < limit)
        }),
{
    let key = decimal(update.room_id as nat) + ":"@ + r.clients@[i]@;
    assert(texts(r.clients@)[i] == r.clients@[i]@);
    let gone = lemma_left(old(limiter)@, key, now, window);
    assert(gone_at(times_of(old(limiter)@, key), gone, window, now));
    assert(r.admitted@[i] == admits(old(limiter)@, key, limit, window, now));
}

/// Nothing is asked of the rate limit but for the clients that get the update: the times of any
/// other key only lose those that lie more than a window back, and where no one gets the update
/// nothing changes.
pub proof fn law_updates_count_for_no_one_else(
    hub: &WsHub,
    update: &RoomUpdate,
    limiter: &mut RateLimiter,
    limit: usize,
    window: u128,
    now: u128,
    r: BroadcastPlan,
    client: Seq<char>,
)
    requires
        call_ensures(WsHub::plan_broadcast, (hub, update, limiter, limit, window, now), r),
    ensures
        r.clients@.len() == 0 ==> final(limiter)@ == old(limiter)@,
        !texts(r.clients@).contains(client) ==> {
            let key = decimal(update.room_id as nat) + ":"@ + client;
            r.clients@.len() > 0 ==> only_gone_dropped(
                times_of(old(limiter)@, key),
                times_of(final(limiter)@, key),
                window,
                now,
            )
        },
        texts(r.clients@).contains(client) ==> {
            let key = decimal(update.room_id as nat) + ":"@ + client;
            exists|gone: int, i: int| #[trigger]
                gone_at(times_of(old(limiter)@, key), gone, window, now) && 0 <= i
                    < r.clients@.len() && (#[trigger] r.clients@[i])@ == client && times_of(
                    final(limiter)@,
                    key,
                ) == (if r.admitted@[i] {
                    times_of(old(limiter)@, key).skip(gone).push(now)
                } else {
                    times_of(old(limiter)@, key).skip(gone)
                })
        },
{
    let key = decimal(update.room_id as nat) + ":"@ + client;
    let asked = texts(r.clients@);
    let before = old(limiter)@;
    assert(r.clients@.len() == asked.len());
    let gone = lemma_left(before, key, now, window);
    lemma_asking_counts(before, update.room_id, asked, client, limit, window, now);
    assert(gone_at(times_of(before, key), gone, window, now));
    if asked.contains(client) {
        let i = choose|i: int| 0 <= i < asked.len() && asked[i] == client;
        assert(asked[i] == r.clients@[i]@);
        assert(r.admitted@[i] == admits(before, rate_key(update.room_id, asked[i]), limit, window, now));
    }
}

proof fn lemma_asking_counts(
    limiter: Map<Seq<char>, Seq<u128>>,
    room_id: u64,
    clients: Seq<Seq<char>>,
    client: Seq<char>,
    limit: usize,
    window: u128,
    now: u128,
)
    requires
        clients.no_duplicates(),
    ensures
        ({
            let key = rate_key(room_id, client);
            let left = times_of(swept(limiter, now, window), key);
            let after = after_asking(limiter, room_id, clients, limit, window, now);
            if clients.contains(client) {
                times_of(after, key) == (if admits(limiter, key, limit, window, now) {
                    left.push(now)
                } else {
                    left
                })
            } else if clients.len() > 0 {
                times_of(after, key) == left
            } else {
                after == limiter
            }
        }),
    decreases clients.len(),
{
    if clients.len() > 0 {
        let head = clients.drop_last();
        let last = clients.last();
        let key = rate_key(room_id, client);
        let mid = after_asking(limiter, room_id, head, limit, window, now);
        let after = after_asking(limiter, room_id, clients, limit, window, now);
        assert(head.no_duplicates());
        lemma_asking_counts(limiter, room_id, head, client, limit, window, now);
        assert(!head.contains(last));
        assert(clients.contains(client) <==> head.contains(client) || client == last) by {
            if head.contains(client) {
                let i = choose|i: int| 0 <= i < head.len() && head[i] == client;
                assert(clients[i] == client);
            }
            if clients.contains(client) {
                let i = choose|i: int| 0 <= i < clients.len() && clients[i] == client;
                if i < head.len() {
                    assert(head[i] == client);
                }
            }
            assert(clients[clients.len() - 1] == last);
        }
        lemma_sweep_again(limiter, mid, key, limit, window, now, head.len() > 0);
        if client == last {
            law_asking_is_independent(limiter, room_id, head, client, limit, window, now);
        } else {
            if rate_key(room_id, last) == key {
                lemma_rate_key_injective(room_id, last, client);
            }
            assert(times_of(after, key) == times_of(swept(mid, now, window), key));
        }
    }
}

/// What is left of the times of a key stays when those that lie more than a window back are
/// dropped once more.
proof fn lemma_sweep_again(
    before: Map<Seq<char>, Seq<u128>>,
    mid: Map<Seq<char>, Seq<u128>>,
    key: Seq<char>,
    limit: usize,
    window: u128,
    now: u128,
    swept_before: bool,
)
    requires
        swept_before ==> times_of(mid, key) == times_of(swept(before, now, window), key)
            || times_of(mid, key) == times_of(swept(before, now, window), key).push(now),
        !swept_before ==> mid == before,
    ensures
        times_of(swept(mid, now, window), key) == (if swept_before {
            times_of(mid, key)
        } else {
            times_of(swept(before, now, window), key)
        }),
{
    if swept_before {
        let left = times_of(swept(before, now, window), key);
        let gone = lemma_left(before, key, now, window);
        let again = lemma_left(mid, key, now, window);
        let times = times_of(mid, key);
        assert(again == 0) by {
            if again > 0 {
                assert(times[0] + window < now);
                if left.len() > 0 {
                    assert(left[0] == times_of(before, key)[gone]);
                    assert(times[0] == left[0]);
                }
            }
        }
        assert(times.skip(0) =~= times);
    }
}

/// A client is added to a room that has fewer than 200 clients, with the containers that it is
/// allowed; everyone else stays as they are. To a full room no one is added.
pub proof fn law_clients_are_added(
    hub: &mut WsHub,
    room_id: u64,
    client_id: &str,
    client: ClientInfo,
    r: Result<(), &'static str>,
)
    requires
        call_ensures(WsHub::add_client, (hub, room_id, client_id, client), r),
    ensures
        ({
            let before = old(hub)@;
            let after = final(hub)@;
            let full = before.contains_key(room_id) && before[room_id].dom().len() >= 200;
            &&& r is Err <==> full
            &&& r matches Err(e) ==> e@ == "room_client_limit_exceeded"@ && after == before
            &&& r is Ok ==> {
                &&& after.contains_key(room_id)
                &&& after[room_id].contains_key(client_id@)
                &&& after[room_id][client_id@] == client.allowed_containers@
                &&& forall|other: u64|
                    other != room_id ==> (#[trigger] after.contains_key(other)
                        <==> before.contains_key(other)) && (before.contains_key(other)
                        ==> after[other] == before[other])
                &&& forall|other: Seq<char>|
                    other != client_id@ ==> (#[trigger] after[room_id].contains_key(other)
                        <==> before.contains_key(room_id) && before[room_id].contains_key(other))
                        && (after[room_id].contains_key(other) ==> after[room_id][other]
                        == before[room_id][other])
            }
        }),
{
}

/// A client that is taken out of a room is gone from it; everyone else stays as they are. A room
/// that no one is left in is dropped.
pub proof fn law_clients_are_removed(hub: &mut WsHub, room_id: u64, client_id: &str)
    requires
        call_ensures(WsHub::remove_client, (hub, room_id, client_id), ()),
    ensures
        ({
            let before = old(hub)@;
            let after = final(hub)@;
            &&& forall|other: u64|
                other != room_id ==> (#[trigger] after.contains_key(other) <==> before.contains_key(
                    other,
                )) && (before.contains_key(other) ==> after[other] == before[other])
            &&& forall|other: Seq<char>|
                (after.contains_key(room_id) && #[trigger] after[room_id].contains_key(other))
                    ==> before.contains_key(room_id) && before[room_id].contains_key(other) && other
                    != client_id@ && after[room_id][other] == before[room_id][other]
            &&& forall|other: Seq<char>|
                before.contains_key(room_id) && #[trigger] before[room_id].contains_key(other)
                    && other != client_id@ ==> after.contains_key(room_id)
                    && after[room_id].contains_key(other)
            &&& after.contains_key(room_id) ==> exists|other: Seq<char>| #[trigger]
                after[room_id].contains_key(other)
        }),
{
    let before = old(hub)@;
    let after = final(hub)@;
    if before.contains_key(room_id) {
        let left = before[room_id].remove(client_id@);
        assert forall|other: Seq<char>| #[trigger] before[room_id].contains_key(other) && other
            != client_id@ implies after.contains_key(room_id) && after[room_id].contains_key(
            other,
        ) by {
            assert(left.dom().contains(other));
        }
        if after.contains_key(room_id) {
            if forall|other: Seq<char>| !#[trigger] after[room_id].contains_key(other) {
                assert(left.dom() =~= Set::<Seq<char>>::empty());
            }
        }
    }
}

/// A room that is taken out is gone with its clients, and the other rooms stay as they are.
pub proof fn law_rooms_are_removed(hub: &mut WsHub, room_id: u64)
    requires
        call_ensures(WsHub::remove_room, (hub, room_id), ()),
    ensures
        !final(hub)@.contains_key(room_id),
        forall|other: u64|
            other != room_id ==> (#[trigger] final(hub)@.contains_key(other) <==> old(
                hub,
            )@.contains_key(other)) && (old(hub)@.contains_key(other) ==> final(hub)@[other] == old(
                hub,
            )@[other]),
{
}

/// After an update was sent, exactly the clients that did not get it are gone from its room; the
/// other rooms stay as they are. What is returned are the numbers of those stopped by the rate
/// limit and of those for whom too many events were waiting.
pub proof fn law_only_failed_clients_are_dropped(
    hub: &mut WsHub,
    room_id: u64,
    clients: &[String],
    deliveries: &[Delivery],
    r: (u64, u64),
)
    requires
        call_ensures(WsHub::finish_broadcast, (hub, room_id, clients, deliveries), r),
        clients@.len() == deliveries@.len(),
    ensures
        ({
            let before = old(hub)@;
            let after = final(hub)@;
            &&& forall|other: u64|
                other != room_id ==> (#[trigger] after.contains_key(other) <==> before.contains_key(
                    other,
                )) && (before.contains_key(other) ==> after[other] == before[other])
            &&& forall|client: Seq<char>| #![trigger clients_of(after, room_id).contains_key(client)]
                clients_of(after, room_id).contains_key(client) <==> clients_of(
                    before,
                    room_id,
                ).contains_key(client) && !exists|i: int|
                    0 <= i < clients@.len() && (#[trigger] clients@[i])@ == client
                        && deliveries@[i] != Delivery::Sent
            &&& forall|client: Seq<char>| #[trigger]
                clients_of(after, room_id).contains_key(client) ==> clients_of(after, room_id)[client]
                    == clients_of(before, room_id)[client]
        }),
        r.0 == Set::new(
            |i: int| 0 <= i < deliveries@.len() && deliveries@[i] == Delivery::RateLimited,
        ).len(),
        r.1 == Set::new(
            |i: int| 0 <= i < deliveries@.len() && deliveries@[i] == Delivery::Full,
        ).len(),
{
    let before = old(hub)@;
    let after = final(hub)@;
    let asked = texts(clients@);
    lemma_count_of(deliveries@, Delivery::RateLimited);
    lemma_count_of(deliveries@, Delivery::Full);
    law_failed_clients_are_dropped(clients_of(before, room_id), asked, deliveries@);
    let left = after_deliveries(clients_of(before, room_id), asked, deliveries@);
    assert forall|client: Seq<char>| #![trigger clients_of(after, room_id).contains_key(client)]
        clients_of(after, room_id).contains_key(client) <==> left.contains_key(client) by {
        if left.contains_key(client) {
            assert(left.dom().contains(client));
        }
    }
    assert forall|client: Seq<char>| #[trigger] missed(asked, deliveries@, client) == exists|i: int|
        0 <= i < clients@.len() && (#[trigger] clients@[i])@ == client && deliveries@[i]
            != Delivery::Sent by {
        if missed(asked, deliveries@, client) {
            let i = choose|i: int|
                0 <= i < asked.len() && #[trigger] asked[i] == client && !(deliveries@[i] is Sent);
            assert(clients@[i]@ == client);
        }
        if exists|i: int|
            0 <= i < clients@.len() && (#[trigger] clients@[i])@ == client && deliveries@[i]
                != Delivery::Sent {
            let i = choose|i: int|
                0 <= i < clients@.len() && (#[trigger] clients@[i])@ == client && deliveries@[i]
                    != Delivery::Sent;
            assert(asked[i] == client);
        }
    }
}

proof fn lemma_count_of(deliveries: Seq<Delivery>, end: Delivery)
    ensures
        ({
            let places = Set::new(
                |i: int| 0 <= i < deliveries.len() && deliveries[i] == end,
            );
            places.finite() && count_of(deliveries, end) == places.len()
        }),
    decreases deliveries.len(),
{
    reveal(Seq::filter);
    let places = Set::new(|i: int| 0 <= i < deliveries.len() && deliveries[i] == end);
    if deliveries.len() == 0 {
        assert(places =~= Set::<int>::empty());
    } else {
        let head = deliveries.drop_last();
        let before = Set::new(|i: int| 0 <= i < head.len() && head[i] == end);
        lemma_count_of(head, end);
        if deliveries.last() == end {
            assert(places =~= before.insert(deliveries.len() - 1));
        } else {
            assert(places =~= before);
        }
    }
}

/// Of a change a client is told the room and its version; of a change of a key also the container,
/// the key, and the value or that it was deleted.
pub proof fn law_events_tell_the_change(update: &RoomUpdate, r: RoomEvent)
    requires
        call_ensures(room_event, (update,), r),
    ensures
        update.container@ == "*"@ && update.key@ == "*"@ ==> r == (RoomEvent::RoomChanged {
            room_id: update.room_id,
            room_counter: update.room_counter,
        }),
        update.container@ != "*"@ || update.key@ != "*"@ ==> match update.value {
            Some(value) => r matches RoomEvent::Updated {
                room_id,
                room_counter,
                container,
                key,
                value: told,
            } && room_id == update.room_id && room_counter == update.room_counter && container@
                == update.container@ && key@ == update.key@ && told@ == value@,
            None => r matches RoomEvent::Deleted { room_id, room_counter, container, key }
                && room_id == update.room_id && room_counter == update.room_counter && container@
                == update.container@ && key@ == update.key@,
        },
{
}

} // verus!
