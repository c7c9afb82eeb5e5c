//! The state of the server that groups the fragments of a room in named
//! containers: rooms, labels, transactions, snapshots, deltas and tokens.

use crate::collections::{ascending, lemma_take_one_more, texts, IdMap, StrMap, StrSet};
use crate::json::Value;
use crate::text::{decimal, decimal_string, same, trim, trimmed_string};
use crate::tokens::{
    clock_gave, container_claims, container_token, encode_container_token, issue_time,
    next_issue_time, saturating_sum, seconds_since_epoch,
};
use vstd::prelude::*;
use vstd::string::*;

verus! {

// ---------------------------------------------------------------------------
// Rooms
// ---------------------------------------------------------------------------

/// The value of one key, with the version of the room at which it was written.
#[derive(Debug)]
pub struct FragmentEntry {
    pub value: Value,
    pub key_version: u64,
    /// Set once the fragment has been written to disk.
    pub persisted: bool,
}

pub ghost struct FragmentView {
    pub value: Seq<char>,
    pub key_version: u64,
    pub persisted: bool,
}

impl View for FragmentEntry {
    type V = FragmentView;

    open spec fn view(&self) -> FragmentView {
        FragmentView {
            value: self.value@,
            key_version: self.key_version,
            persisted: self.persisted,
        }
    }
}

/// An operation that waits in an open transaction.
#[derive(Debug)]
pub enum RoomCommand {
    SetValue { container: String, key: String, value: Value },
    Del { container: String, key: String },
}

pub ghost enum RoomCommandView {
    SetValue { container: Seq<char>, key: Seq<char>, value: Seq<char> },
    Del { container: Seq<char>, key: Seq<char> },
}

impl View for RoomCommand {
    type V = RoomCommandView;

    open spec fn view(&self) -> RoomCommandView {
        match *self {
            RoomCommand::SetValue { container, key, value } => RoomCommandView::SetValue {
                container: container@,
                key: key@,
                value: value@,
            },
            RoomCommand::Del { container, key } => RoomCommandView::Del {
                container: container@,
                key: key@,
            },
        }
    }
}

pub open spec fn commands_view(v: Seq<RoomCommand>) -> Seq<RoomCommandView> {
    v.map_values(|c: RoomCommand| c@)
}

/// A room: its containers, the version counter, the operations of an open
/// transaction, and whether a save or a load is going on.
pub struct RoomState {
    pub containers: StrMap<StrMap<FragmentEntry>>,
    pub room_counter: u64,
    pub tx_buffer: Option<Vec<RoomCommand>>,
    pub io_locked: bool,
}

#[verifier::ext_equal]
pub ghost struct RoomView {
    pub containers: Map<Seq<char>, Map<Seq<char>, FragmentView>>,
    pub room_counter: u64,
    pub tx_buffer: Option<Seq<RoomCommandView>>,
    pub io_locked: bool,
}

impl View for RoomState {
    type V = RoomView;

    open spec fn view(&self) -> RoomView {
        RoomView {
            containers: self.containers@,
            room_counter: self.room_counter,
            tx_buffer: match self.tx_buffer {
                Some(buffer) => Some(commands_view(buffer@)),
                None => None,
            },
            io_locked: self.io_locked,
        }
    }
}

impl RoomView {
    pub open spec fn fresh() -> RoomView {
        RoomView {
            containers: Map::empty(),
            room_counter: 0,
            tx_buffer: None,
            io_locked: false,
        }
    }

    /// The fragments of a container; none where there is no such container.
    pub open spec fn fragments(self, container: Seq<char>) -> Map<Seq<char>, FragmentView> {
        if self.containers.contains_key(container) {
            self.containers[container]
        } else {
            Map::empty()
        }
    }

    /// The room after a value was written: the counter goes up by one, and the key
    /// holds the value with the new version.
    pub open spec fn write(self, container: Seq<char>, key: Seq<char>, value: Seq<char>) -> RoomView {
        let version = (self.room_counter + 1) as u64;
        RoomView {
            containers: self.containers.insert(
                container,
                self.fragments(container).insert(
                    key,
                    FragmentView { value, key_version: version, persisted: false },
                ),
            ),
            room_counter: version,
            tx_buffer: self.tx_buffer,
            io_locked: self.io_locked,
        }
    }

    /// The room after one operation of a transaction. A deletion writes a tombstone,
    /// also where the key or the container was not there.
    pub open spec fn apply(self, command: RoomCommandView) -> RoomView {
        match command {
            RoomCommandView::SetValue { container, key, value } => self.write(container, key, value),
            RoomCommandView::Del { container, key } => self.write(container, key, "null"@),
        }
    }

    /// The room after a row of operations, the first one first.
    pub open spec fn apply_all(self, commands: Seq<RoomCommandView>) -> RoomView
        decreases commands.len(),
    {
        if commands.len() == 0 {
            self
        } else {
            self.apply_all(commands.drop_last()).apply(commands.last())
        }
    }

    pub open spec fn with_buffer(self, buffer: Option<Seq<RoomCommandView>>) -> RoomView {
        RoomView { tx_buffer: buffer, ..self }
    }

    /// The room after an operation: it waits in the open transaction, or it is done
    /// at once.
    pub open spec fn submit(self, command: RoomCommandView) -> RoomView {
        match self.tx_buffer {
            Some(buffer) => self.with_buffer(Some(buffer.push(command))),
            None => self.apply(command),
        }
    }

    /// Whether the counter can take an operation that is done at once.
    pub open spec fn can_submit(self) -> bool {
        self.tx_buffer is None ==> self.room_counter < u64::MAX
    }

    /// Whether the counter can take the operations of the open transaction.
    pub open spec fn can_commit(self) -> bool {
        self.tx_buffer matches Some(buffer) ==> self.room_counter + buffer.len() <= u64::MAX
    }

    /// No fragment is newer than the room, and each was written at a version of its own.
    pub open spec fn valid(self) -> bool {
        &&& forall|c: Seq<char>, k: Seq<char>| #[trigger]
            self.holds(c, k) ==> 0 < self.containers[c][k].key_version <= self.room_counter
        &&& forall|c1: Seq<char>, k1: Seq<char>, c2: Seq<char>, k2: Seq<char>|
            #[trigger] self.holds(c1, k1) && #[trigger] self.holds(c2, k2)
                && self.containers[c1][k1].key_version == self.containers[c2][k2].key_version
                ==> c1 == c2 && k1 == k2
    }

    /// Whether there is an entry, be it a tombstone, for a key.
    pub open spec fn holds(self, container: Seq<char>, key: Seq<char>) -> bool {
        self.containers.contains_key(container) && self.containers[container].contains_key(key)
    }
}

impl RoomState {
    fn new() -> (r: RoomState)
        ensures
            r@ == RoomView::fresh(),
    {
        RoomState { containers: StrMap::new(), room_counter: 0, tx_buffer: None, io_locked: false }
    }

    /// Writes a value at the next version.
    fn write(&mut self, container: &str, key: &str, value: Value)
        requires
            old(self)@.room_counter < u64::MAX,
        ensures
            final(self)@ == old(self)@.write(container@, key@, value@),
    {
        self.room_counter = self.room_counter + 1;
        let mut fragments: StrMap<FragmentEntry> = match self.containers.remove(container) {
            Some(fragments) => fragments,
            None => StrMap::new(),
        };
        fragments.insert(
            key,
            FragmentEntry { value, key_version: self.room_counter, persisted: false },
        );
        self.containers.insert(container, fragments);
        assert(self@.containers =~= old(self)@.write(container@, key@, value@).containers);
    }

    /// Applies the operations of the open transaction in their order, and closes it.
    fn commit(&mut self, buffer: Vec<RoomCommand>)
        requires
            old(self)@.room_counter + buffer@.len() <= u64::MAX,
        ensures
            final(self)@ == old(self)@.apply_all(commands_view(buffer@)),
    {
        let ghost all = commands_view(buffer@);
        let mut i: usize = 0;
        assert(all.take(0) =~= Seq::<RoomCommandView>::empty());
        while i < buffer.len()
            invariant
                i <= buffer@.len(),
                all == commands_view(buffer@),
                old(self)@.room_counter + buffer@.len() <= u64::MAX,
                self@ == old(self)@.apply_all(all.take(i as int)),
                self@.room_counter == old(self)@.room_counter + i,
            decreases buffer@.len() - i,
        {
            proof {
                let next = all.take(i + 1);
                assert(next.drop_last() =~= all.take(i as int));
                assert(next.last() == buffer@[i as int]@);
            }
            match &buffer[i] {
                RoomCommand::SetValue { container, key, value } => {
                    self.write(container.as_str(), key.as_str(), value.clone());
                },
                RoomCommand::Del { container, key } => {
                    self.write(container.as_str(), key.as_str(), Value::null());
                },
            }
            i = i + 1;
        }
        assert(all.take(i as int) =~= all);
    }
}

// ---------------------------------------------------------------------------
// Snapshots and deltas
// ---------------------------------------------------------------------------

/// What a client sees of a room: the counter, and the values by container and key.
pub struct RoomSnapshot {
    pub room_counter: u64,
    pub containers: StrMap<StrMap<Value>>,
}

#[verifier::ext_equal]
pub ghost struct SnapshotView {
    pub room_counter: u64,
    pub containers: Map<Seq<char>, Map<Seq<char>, Seq<char>>>,
}

impl View for RoomSnapshot {
    type V = SnapshotView;

    open spec fn view(&self) -> SnapshotView {
        SnapshotView { room_counter: self.room_counter, containers: self.containers@ }
    }
}

/// Whether a container may be shown: it is public or it is allowed.
pub open spec fn visible(container: Seq<char>, allowed: Set<Seq<char>>) -> bool {
    container == "public"@ || allowed.contains(container)
}

/// Whether a fragment is shown: in a snapshot if it is not a tombstone, in a delta
/// if it is newer than the version that the client has seen.
pub open spec fn shown(fragment: FragmentView, since: Option<u64>) -> bool {
    match since {
        None => fragment.value != "null"@,
        Some(version) => fragment.key_version > version,
    }
}

/// The values of the fragments that are shown.
pub open spec fn shown_values(
    fragments: Map<Seq<char>, FragmentView>,
    since: Option<u64>,
) -> Map<Seq<char>, Seq<char>> {
    Map::new(
        |key: Seq<char>| fragments.contains_key(key) && shown(fragments[key], since),
        |key: Seq<char>| fragments[key].value,
    )
}

/// The containers that are shown, with their values. A delta leaves out the
/// containers in which nothing changed.
pub open spec fn shown_containers(
    containers: Map<Seq<char>, Map<Seq<char>, FragmentView>>,
    allowed: Set<Seq<char>>,
    since: Option<u64>,
) -> Map<Seq<char>, Map<Seq<char>, Seq<char>>> {
    Map::new(
        |name: Seq<char>|
            containers.contains_key(name) && visible(name, allowed) && (since is Some
                ==> shown_values(containers[name], since) != Map::<Seq<char>, Seq<char>>::empty()),
        |name: Seq<char>| shown_values(containers[name], since),
    )
}

impl RoomView {
    pub open spec fn snapshot(self, allowed: Set<Seq<char>>) -> SnapshotView {
        SnapshotView {
            room_counter: self.room_counter,
            containers: shown_containers(self.containers, allowed, None),
        }
    }

    pub open spec fn delta(self, since: u64, allowed: Set<Seq<char>>) -> SnapshotView {
        SnapshotView {
            room_counter: self.room_counter,
            containers: if since >= self.room_counter {
                Map::empty()
            } else {
                shown_containers(self.containers, allowed, Some(since))
            },
        }
    }
}

/// Collects the values of the fragments that are shown.
fn collect_values(fragments: &StrMap<FragmentEntry>, since: Option<u64>) -> (r: StrMap<Value>)
    ensures
        r@ == shown_values(fragments@, since),
{
    let mut out: StrMap<Value> = StrMap::new();
    let n: usize = fragments.len();
    let mut i: usize = 0;
    while i < n
        invariant
            i <= n,
            n == fragments.order().len(),
            fragments.order().no_duplicates(),
            fragments.order().to_set() == fragments@.dom(),
            forall|key: Seq<char>|
                #![trigger out@.contains_key(key)]
                out@.contains_key(key) <==> fragments.order().take(i as int).contains(key) && shown(
                    fragments@[key],
                    since,
                ),
            forall|key: Seq<char>|
                #![trigger out@[key]]
                out@.contains_key(key) ==> out@[key] == fragments@[key].value,
        decreases n - i,
    {
        let entry: &FragmentEntry = fragments.value_at(i);
        let show: bool = match since {
            None => !entry.value.is_null(),
            Some(version) => entry.key_version > version,
        };
        let ghost key = fragments.order()[i as int];
        if show {
            out.insert(fragments.key_at(i), entry.value.clone());
        }
        proof {
            lemma_take_one_more(fragments.order(), i as int);
        }
        i = i + 1;
    }
    proof {
        assert(fragments.order().take(n as int) =~= fragments.order());
        assert forall|key: Seq<char>| fragments.order().contains(key) == fragments@.contains_key(
            key,
        ) by {
            assert(fragments.order().to_set().contains(key) == fragments@.dom().contains(key));
        }
        assert(out@ =~= shown_values(fragments@, since));
    }
    out
}

/// Collects the containers that are shown.
fn collect_containers(
    containers: &StrMap<StrMap<FragmentEntry>>,
    allowed: &StrSet,
    since: Option<u64>,
) -> (r: StrMap<StrMap<Value>>)
    ensures
        r@ == shown_containers(containers@, allowed@, since),
{
    let mut out: StrMap<StrMap<Value>> = StrMap::new();
    let n: usize = containers.len();
    let mut i: usize = 0;
    let ghost goal = shown_containers(containers@, allowed@, since);
    while i < n
        invariant
            i <= n,
            n == containers.order().len(),
            containers.order().no_duplicates(),
            containers.order().to_set() == containers@.dom(),
            goal == shown_containers(containers@, allowed@, since),
            forall|name: Seq<char>|
                #![trigger out@.contains_key(name)]
                out@.contains_key(name) <==> containers.order().take(i as int).contains(name)
                    && goal.contains_key(name),
            forall|name: Seq<char>|
                #![trigger out@[name]]
                out@.contains_key(name) ==> out@[name] == goal[name],
        decreases n - i,
    {
        let name: &str = containers.key_at(i);
        let fragments: &StrMap<FragmentEntry> = containers.value_at(i);
        if same(name, "public") || allowed.contains(name) {
            let values: StrMap<Value> = collect_values(fragments, since);
            let empty: bool = values.len() == 0;
            assert(empty == (values@ == Map::<Seq<char>, Seq<char>>::empty())) by {
                if values@.dom().len() == 0 {
                    assert(values@.dom() =~= Set::<Seq<char>>::empty());
                    assert(values@ =~= Map::<Seq<char>, Seq<char>>::empty());
                }
                if values@ == Map::<Seq<char>, Seq<char>>::empty() {
                    assert(values@.dom() =~= Set::<Seq<char>>::empty());
                }
            }
            if since.is_none() || !empty {
                out.insert(name, values);
            }
        }
        proof {
            lemma_take_one_more(containers.order(), i as int);
        }
        i = i + 1;
    }
    proof {
        assert(containers.order().take(n as int) =~= containers.order());
        assert forall|name: Seq<char>| containers.order().contains(name)
            == containers@.contains_key(name) by {
            assert(containers.order().to_set().contains(name) == containers@.dom().contains(name));
        }
        assert(out@ =~= goal);
    }
    out
}

// ---------------------------------------------------------------------------
// Errors
// ---------------------------------------------------------------------------

/// Why an operation on the state is refused.
#[derive(Debug, Clone, Copy, PartialEq, Eq, Structural)]
pub enum StateError {
    RoomNotFound,
    ContainerNotFound,
    FragmentNotFound,
    /// The fragment was deleted.
    FragmentTombstone,
    TxNotOpen,
    TxAlreadyOpen,
    JwtKeyNotConfigured,
    JwtIssuerAudienceNotConfigured,
    JwtKeyTooShort,
    CommandApiKeyInvalid,
    LabelNotFound,
    /// The label belongs to another room.
    LabelInUse,
    /// The label is empty or too long.
    LabelInvalid,
    /// A save or a load of the room is going on.
    RoomIoBusy,
}

pub open spec fn error_text(e: StateError) -> Seq<char> {
    match e {
        StateError::RoomNotFound => "room_not_found"@,
        StateError::ContainerNotFound => "container_not_found"@,
        StateError::FragmentNotFound => "not_found"@,
        StateError::FragmentTombstone => "tombstone"@,
        StateError::TxNotOpen => "tx_not_open"@,
        StateError::TxAlreadyOpen => "tx_already_open"@,
        StateError::JwtKeyNotConfigured => "jwt_key_not_configured"@,
        StateError::JwtIssuerAudienceNotConfigured => "jwt_issuer_audience_not_configured"@,
        StateError::JwtKeyTooShort => "jwt_key_too_short"@,
        StateError::CommandApiKeyInvalid => "command_api_key_invalid"@,
        StateError::LabelNotFound => "label_not_found"@,
        StateError::LabelInUse => "label_in_use"@,
        StateError::LabelInvalid => "label_invalid"@,
        StateError::RoomIoBusy => "room_io_busy"@,
    }
}

impl StateError {
    /// The text of the error, as it stands in answers.
    pub fn to_text(&self) -> (r: String)
        ensures
            r@ == error_text(*self),
    {
        match self {
            StateError::RoomNotFound => "room_not_found".to_string(),
            StateError::ContainerNotFound => "container_not_found".to_string(),
            StateError::FragmentNotFound => "not_found".to_string(),
            StateError::FragmentTombstone => "tombstone".to_string(),
            StateError::TxNotOpen => "tx_not_open".to_string(),
            StateError::TxAlreadyOpen => "tx_already_open".to_string(),
            StateError::JwtKeyNotConfigured => "jwt_key_not_configured".to_string(),
            StateError::JwtIssuerAudienceNotConfigured => {
                "jwt_issuer_audience_not_configured".to_string()
            },
            StateError::JwtKeyTooShort => "jwt_key_too_short".to_string(),
            StateError::CommandApiKeyInvalid => "command_api_key_invalid".to_string(),
            StateError::LabelNotFound => "label_not_found".to_string(),
            StateError::LabelInUse => "label_in_use".to_string(),
            StateError::LabelInvalid => "label_invalid".to_string(),
            StateError::RoomIoBusy => "room_io_busy".to_string(),
        }
    }
}

// ---------------------------------------------------------------------------
// The application state
// ---------------------------------------------------------------------------

/// The rooms, the labels, the token settings and the counters of the server.
pub struct AppState {
    /// Open websocket connections.
    pub total_ws_connections: usize,
    /// Commands processed.
    pub total_command_requests: u64,
    /// Commands answered with an error.
    pub command_error_count: u64,
    pub ws_auth_success: u64,
    pub ws_auth_failure: u64,
    pub command_auth_failure: u64,
    /// Commands that could not be parsed or are unknown.
    pub invalid_command_count: u64,
    /// The lifetimes of all finished websocket connections, in nanoseconds.
    pub ws_connection_latency_ns_total: u128,
    /// Finished websocket connections.
    pub ws_connection_count: u64,
    /// Updates dropped because a queue was full.
    pub ws_update_dropped: u64,
    /// Updates dropped because of the rate limit.
    pub ws_update_rate_limited: u64,
    pub ws_send_errors: u64,
    pub rooms: IdMap<RoomState>,
    /// From label to room.
    pub labels: StrMap<u64>,
    pub next_room_id: u64,
    pub jwt_key: Option<String>,
    pub jwt_ttl_seconds: u64,
    pub jwt_issuer: Option<String>,
    pub jwt_audience: Option<String>,
    pub last_jwt_issue_seconds: Option<u64>,
    pub command_api_key: Option<String>,
    /// Where the files of saved rooms stand.
    pub save_dir: Option<String>,
}

#[verifier::ext_equal]
pub ghost struct AppView {
    pub total_ws_connections: usize,
    pub total_command_requests: u64,
    pub command_error_count: u64,
    pub ws_auth_success: u64,
    pub ws_auth_failure: u64,
    pub command_auth_failure: u64,
    pub invalid_command_count: u64,
    pub ws_connection_latency_ns_total: u128,
    pub ws_connection_count: u64,
    pub ws_update_dropped: u64,
    pub ws_update_rate_limited: u64,
    pub ws_send_errors: u64,
    pub rooms: Map<u64, RoomView>,
    pub labels: Map<Seq<char>, u64>,
    pub next_room_id: u64,
    pub jwt_key: Option<Seq<char>>,
    pub jwt_ttl_seconds: u64,
    pub jwt_issuer: Option<Seq<char>>,
    pub jwt_audience: Option<Seq<char>>,
    pub last_jwt_issue_seconds: Option<u64>,
    pub command_api_key: Option<Seq<char>>,
    pub save_dir: Option<Seq<char>>,
}

pub open spec fn optional_text(o: Option<String>) -> Option<Seq<char>> {
    match o {
        Some(s) => Some(s@),
        None => None,
    }
}

impl View for AppState {
    type V = AppView;

    open spec fn view(&self) -> AppView {
        AppView {
            total_ws_connections: self.total_ws_connections,
            total_command_requests: self.total_command_requests,
            command_error_count: self.command_error_count,
            ws_auth_success: self.ws_auth_success,
            ws_auth_failure: self.ws_auth_failure,
            command_auth_failure: self.command_auth_failure,
            invalid_command_count: self.invalid_command_count,
            ws_connection_latency_ns_total: self.ws_connection_latency_ns_total,
            ws_connection_count: self.ws_connection_count,
            ws_update_dropped: self.ws_update_dropped,
            ws_update_rate_limited: self.ws_update_rate_limited,
            ws_send_errors: self.ws_send_errors,
            rooms: self.rooms@,
            labels: self.labels@,
            next_room_id: self.next_room_id,
            jwt_key: optional_text(self.jwt_key),
            jwt_ttl_seconds: self.jwt_ttl_seconds,
            jwt_issuer: optional_text(self.jwt_issuer),
            jwt_audience: optional_text(self.jwt_audience),
            last_jwt_issue_seconds: self.last_jwt_issue_seconds,
            command_api_key: optional_text(self.command_api_key),
            save_dir: optional_text(self.save_dir),
        }
    }
}

impl AppView {
    pub open spec fn fresh() -> AppView {
        AppView {
            total_ws_connections: 0,
            total_command_requests: 0,
            command_error_count: 0,
            ws_auth_success: 0,
            ws_auth_failure: 0,
            command_auth_failure: 0,
            invalid_command_count: 0,
            ws_connection_latency_ns_total: 0,
            ws_connection_count: 0,
            ws_update_dropped: 0,
            ws_update_rate_limited: 0,
            ws_send_errors: 0,
            rooms: Map::empty(),
            labels: Map::empty(),
            next_room_id: 1,
            jwt_key: None,
            jwt_ttl_seconds: 3600,
            jwt_issuer: None,
            jwt_audience: None,
            last_jwt_issue_seconds: None,
            command_api_key: None,
            save_dir: None,
        }
    }

    pub open spec fn with_room(self, id: u64, room: RoomView) -> AppView {
        AppView { rooms: self.rooms.insert(id, room), ..self }
    }

    /// Why a room cannot be worked on, if it cannot.
    pub open spec fn refusal(self, id: u64) -> Option<StateError> {
        if !self.rooms.contains_key(id) {
            Some(StateError::RoomNotFound)
        } else if self.rooms[id].io_locked {
            Some(StateError::RoomIoBusy)
        } else {
            None
        }
    }

    /// Every room is valid and older than the next identifier, and every label
    /// belongs to a room.
    pub open spec fn valid(self) -> bool {
        &&& forall|id: u64| #[trigger]
            self.rooms.contains_key(id) ==> id < self.next_room_id && self.rooms[id].valid()
        &&& forall|label: Seq<char>| #[trigger]
            self.labels.contains_key(label) ==> self.rooms.contains_key(self.labels[label])
    }
}

/// The largest length of a label, in bytes.
pub const MAX_LABEL_BYTES: usize = 256;

/// The smallest length of a key that tokens are signed with, in bytes.
pub const MIN_JWT_KEY_BYTES: usize = 32;

pub open spec fn byte_len(s: Seq<char>) -> nat {
    vstd::utf8::encode_utf8(s).len()
}

/// Whether a trimmed label can be given to a room.
pub open spec fn label_ok(label: Seq<char>) -> bool {
    0 < label.len() && byte_len(label) <= MAX_LABEL_BYTES
}

/// The labels but for those of one room.
pub open spec fn labels_without(labels: Map<Seq<char>, u64>, id: u64) -> Map<Seq<char>, u64> {
    Map::new(
        |label: Seq<char>| labels.contains_key(label) && labels[label] != id,
        |label: Seq<char>| labels[label],
    )
}

/// Takes out the labels of one room.
pub(crate) fn drop_labels(labels: &StrMap<u64>, id: u64) -> (r: StrMap<u64>)
    ensures
        r@ == labels_without(labels@, id),
{
    let mut out: StrMap<u64> = StrMap::new();
    let n: usize = labels.len();
    let mut i: usize = 0;
    while i < n
        invariant
            i <= n,
            n == labels.order().len(),
            labels.order().no_duplicates(),
            labels.order().to_set() == labels@.dom(),
            forall|key: Seq<char>|
                #![trigger out@.contains_key(key)]
                out@.contains_key(key) <==> labels.order().take(i as int).contains(key)
                    && labels@[key] != id,
            forall|key: Seq<char>|
                #![trigger out@[key]]
                out@.contains_key(key) ==> out@[key] == labels@[key],
        decreases n - i,
    {
        let room: u64 = *labels.value_at(i);
        let ghost key = labels.order()[i as int];
        if room != id {
            out.insert(labels.key_at(i), room);
        }
        proof {
            lemma_take_one_more(labels.order(), i as int);
        }
        i = i + 1;
    }
    proof {
        assert(labels.order().take(n as int) =~= labels.order());
        assert forall|key: Seq<char>| labels.order().contains(key) == labels@.contains_key(
            key,
        ) by {
            assert(labels.order().to_set().contains(key) == labels@.dom().contains(key));
        }
        assert(out@ =~= labels_without(labels@, id));
    }
    out
}

/// What is told of a room.
#[derive(Debug, Clone, Copy, PartialEq, Eq, Structural)]
pub struct RoomInfo {
    pub room_id: u64,
    pub room_counter: u64,
    pub container_count: usize,
    pub fragment_count: u128,
}

/// The places of all fragments of a room, tombstones with them.
pub open spec fn fragment_places(
    containers: Map<Seq<char>, Map<Seq<char>, FragmentView>>,
) -> Set<(Seq<char>, Seq<char>)> {
    Set::new(
        |place: (Seq<char>, Seq<char>)|
            containers.contains_key(place.0) && containers[place.0].contains_key(place.1),
    )
}

impl AppState {
    /// An empty state.
    pub fn new() -> (r: AppState)
        ensures
            r@ == AppView::fresh(),
            r@.valid(),
    {
        AppState {
            total_ws_connections: 0,
            total_command_requests: 0,
            command_error_count: 0,
            ws_auth_success: 0,
            ws_auth_failure: 0,
            command_auth_failure: 0,
            invalid_command_count: 0,
            ws_connection_latency_ns_total: 0,
            ws_connection_count: 0,
            ws_update_dropped: 0,
            ws_update_rate_limited: 0,
            ws_send_errors: 0,
            rooms: IdMap::new(),
            labels: StrMap::new(),
            next_room_id: 1,
            jwt_key: None,
            jwt_ttl_seconds: 3600,
            jwt_issuer: None,
            jwt_audience: None,
            last_jwt_issue_seconds: None,
            command_api_key: None,
            save_dir: None,
        }
    }

    /// Creates a room and returns its identifier.
    pub fn create_room(&mut self) -> (r: u64)
        requires
            old(self)@.next_room_id < u64::MAX,
        ensures
            r == old(self)@.next_room_id,
            final(self)@ == (AppView {
                next_room_id: (r + 1) as u64,
                ..old(self)@.with_room(r, RoomView::fresh())
            }),
            old(self)@.valid() ==> final(self)@.valid() && !old(self)@.rooms.contains_key(r),
    {
        let room_id: u64 = self.next_room_id;
        self.next_room_id = room_id + 1;
        self.rooms.insert(room_id, RoomState::new());
        room_id
    }

    /// Deletes a room, and its labels with it. A room that is busy stays.
    pub fn delete_room(&mut self, room_id: u64) -> (r: Result<(), StateError>)
        ensures
            r == (match old(self)@.refusal(room_id) {
                Some(e) => Err::<(), StateError>(e),
                None => Ok(()),
            }),
            final(self)@ == (if r is Ok {
                AppView {
                    rooms: old(self)@.rooms.remove(room_id),
                    labels: labels_without(old(self)@.labels, room_id),
                    ..old(self)@
                }
            } else {
                old(self)@
            }),
            old(self)@.valid() ==> final(self)@.valid(),
    {
        match self.check_room(room_id) {
            Err(e) => {
                return Err(e);
            },
            Ok(_) => {},
        }
        self.rooms.remove(room_id);
        let labels: StrMap<u64> = drop_labels(&self.labels, room_id);
        self.labels = labels;
        Ok(())
    }

    /// Gives a label to a room. White space around the label does not count.
    pub fn set_room_label(&mut self, room_id: u64, label: String) -> (r: Result<(), StateError>)
        ensures
            ({
                let old_state = old(self)@;
                let trimmed = trim(label@);
                &&& r == (if !label_ok(trimmed) {
                    Err(StateError::LabelInvalid)
                } else if old_state.refusal(room_id) is Some {
                    Err(old_state.refusal(room_id)->0)
                } else if old_state.labels.contains_key(trimmed) && old_state.labels[trimmed]
                    != room_id {
                    Err(StateError::LabelInUse)
                } else {
                    Ok::<(), StateError>(())
                })
                &&& final(self)@ == (if r is Ok {
                    AppView { labels: old_state.labels.insert(trimmed, room_id), ..old_state }
                } else {
                    old_state
                })
            }),
            old(self)@.valid() ==> final(self)@.valid(),
    {
        let trimmed: String = trimmed_string(label.as_str());
        let bytes: &[u8] = trimmed.as_str().as_bytes();
        if trimmed.as_str().is_empty() || bytes.len() > MAX_LABEL_BYTES {
            proof {
                lemma_no_bytes(trimmed@);
            }
            return Err(StateError::LabelInvalid);
        }
        proof {
            lemma_no_bytes(trimmed@);
        }
        match self.check_room(room_id) {
            Err(e) => {
                return Err(e);
            },
            Ok(_) => {},
        }
        match self.labels.get(trimmed.as_str()) {
            Some(existing) => {
                if *existing != room_id {
                    return Err(StateError::LabelInUse);
                }
                assert(self@.labels =~= old(self)@.labels.insert(trimmed@, room_id));
                return Ok(());
            },
            None => {},
        }
        self.labels.insert(trimmed.as_str(), room_id);
        Ok(())
    }

    /// The room that a label belongs to.
    pub fn get_room_id_by_label(&self, label: &str) -> (r: Result<u64, StateError>)
        ensures
            r == (if self@.labels.contains_key(trim(label@)) {
                Ok::<u64, StateError>(self@.labels[trim(label@)])
            } else {
                Err(StateError::LabelNotFound)
            }),
    {
        let trimmed: String = trimmed_string(label);
        match self.labels.get(trimmed.as_str()) {
            Some(id) => Ok(*id),
            None => Err(StateError::LabelNotFound),
        }
    }

    fn check_room(&self, room_id: u64) -> (r: Result<(), StateError>)
        ensures
            r == (match self@.refusal(room_id) {
                Some(e) => Err::<(), StateError>(e),
                None => Ok(()),
            }),
    {
        match self.rooms.get(room_id) {
            None => Err(StateError::RoomNotFound),
            Some(room) => if room.io_locked {
                Err(StateError::RoomIoBusy)
            } else {
                Ok(())
            },
        }
    }

    /// Puts a changed room back in its place.
    fn put_room(&mut self, room_id: u64, room: RoomState)
        ensures
            final(self)@ == old(self)@.with_room(room_id, room@),
    {
        self.rooms.insert(room_id, room);
    }

    /// Marks a room as busy with a save or a load, or frees it again.
    pub fn set_io_locked(&mut self, room_id: u64, locked: bool) -> (r: Result<(), StateError>)
        ensures
            r == (if old(self)@.rooms.contains_key(room_id) {
                Ok::<(), StateError>(())
            } else {
                Err(StateError::RoomNotFound)
            }),
            final(self)@ == (if r is Ok {
                old(self)@.with_room(
                    room_id,
                    RoomView { io_locked: locked, ..old(self)@.rooms[room_id] },
                )
            } else {
                old(self)@
            }),
    {
        match self.rooms.remove(room_id) {
            None => {
                assert(self@.rooms =~= old(self)@.rooms);
                Err(StateError::RoomNotFound)
            },
            Some(mut room) => {
                room.io_locked = locked;
                self.put_room(room_id, room);
                assert(self@.rooms =~= old(self)@.rooms.insert(room_id, room@));
                Ok(())
            },
        }
    }

    /// Writes a value, or lets it wait in the open transaction.
    pub fn set_fragment(
        &mut self,
        room_id: u64,
        container: String,
        key: String,
        value: Value,
    ) -> (r: Result<(), StateError>)
        requires
            old(self)@.refusal(room_id) is None ==> old(self)@.rooms[room_id].can_submit(),
        ensures
            r == (match old(self)@.refusal(room_id) {
                Some(e) => Err::<(), StateError>(e),
                None => Ok(()),
            }),
            final(self)@ == (if r is Ok {
                old(self)@.with_room(
                    room_id,
                    old(self)@.rooms[room_id].submit(
                        RoomCommandView::SetValue {
                            container: container@,
                            key: key@,
                            value: value@,
                        },
                    ),
                )
            } else {
                old(self)@
            }),
    {
        match self.check_room(room_id) {
            Err(e) => {
                return Err(e);
            },
            Ok(_) => {},
        }
        let mut room: RoomState = self.rooms.remove(room_id).unwrap();
        match room.tx_buffer.take() {
            Some(mut buffer) => {
                let ghost before = buffer@;
                let command: RoomCommand = RoomCommand::SetValue { container, key, value };
                let ghost entry = command@;
                buffer.push(command);
                assert(commands_view(buffer@) =~= commands_view(before).push(entry));
                room.tx_buffer = Some(buffer);
            },
            None => {
                room.write(container.as_str(), key.as_str(), value);
            },
        }
        self.put_room(room_id, room);
        assert(self@.rooms =~= old(self)@.rooms.insert(room_id, room@));
        Ok(())
    }

    /// Deletes a key by a tombstone, or lets the deletion wait in the open transaction.
    pub fn del_fragment(&mut self, room_id: u64, container: String, key: String) -> (r: Result<
        (),
        StateError,
    >)
        requires
            old(self)@.refusal(room_id) is None ==> old(self)@.rooms[room_id].can_submit(),
        ensures
            r == (match old(self)@.refusal(room_id) {
                Some(e) => Err::<(), StateError>(e),
                None => if old(self)@.rooms[room_id].tx_buffer is None && !old(
                    self,
                )@.rooms[room_id].containers.contains_key(container@) {
                    Err(StateError::ContainerNotFound)
                } else {
                    Ok(())
                },
            }),
            final(self)@ == (if r is Ok {
                old(self)@.with_room(
                    room_id,
                    old(self)@.rooms[room_id].submit(
                        RoomCommandView::Del { container: container@, key: key@ },
                    ),
                )
            } else {
                old(self)@
            }),
    {
        match self.check_room(room_id) {
            Err(e) => {
                return Err(e);
            },
            Ok(_) => {},
        }
        let mut room: RoomState = self.rooms.remove(room_id).unwrap();
        match room.tx_buffer.take() {
            Some(mut buffer) => {
                let ghost before = buffer@;
                let command: RoomCommand = RoomCommand::Del { container, key };
                let ghost entry = command@;
                buffer.push(command);
                assert(commands_view(buffer@) =~= commands_view(before).push(entry));
                room.tx_buffer = Some(buffer);
            },
            None => {
                if !room.containers.contains(container.as_str()) {
                    self.put_room(room_id, room);
                    assert(self@.rooms =~= old(self)@.rooms);
                    return Err(StateError::ContainerNotFound);
                }
                room.write(container.as_str(), key.as_str(), Value::null());
            },
        }
        self.put_room(room_id, room);
        assert(self@.rooms =~= old(self)@.rooms.insert(room_id, room@));
        Ok(())
    }
}

/// A text without characters is one without bytes.
pub(crate) proof fn lemma_no_bytes(s: Seq<char>)
    ensures
        s.len() == 0 <==> vstd::utf8::encode_utf8(s).len() == 0,
{
    vstd::utf8::encode_utf8_decode_utf8(s);
    if s.len() == 0 {
        assert(vstd::utf8::encode_utf8(s).len() == 0);
    }
    if vstd::utf8::encode_utf8(s).len() == 0 {
        assert(vstd::utf8::encode_utf8(s) =~= Seq::<u8>::empty());
        assert(vstd::utf8::decode_utf8(Seq::<u8>::empty()).len() == 0);
    }
}

/// The counters of the server, as they are told to a monitor. The average latency of
/// a connection is the total divided by the number of connections.
#[derive(Debug, Clone, Copy, PartialEq, Eq, Structural)]
pub struct Metrics {
    pub room_count: usize,
    pub ws_connections: usize,
    pub next_room_id: u64,
    pub total_command_requests: u64,
    pub command_error_count: u64,
    pub ws_auth_success: u64,
    pub ws_auth_failure: u64,
    pub command_auth_failure: u64,
    pub invalid_command_count: u64,
    pub ws_connection_count: u64,
    pub ws_connection_latency_ns_total: u128,
    pub ws_update_rate_limited: u64,
    pub ws_update_dropped: u64,
    pub ws_send_errors: u64,
}

impl AppView {
    /// The entry of a key, or why there is none to be had.
    pub open spec fn entry(self, id: u64, container: Seq<char>, key: Seq<char>) -> Result<
        FragmentView,
        StateError,
    > {
        match self.refusal(id) {
            Some(e) => Err(e),
            None => if !self.rooms[id].containers.contains_key(container) {
                Err(StateError::ContainerNotFound)
            } else if !self.rooms[id].containers[container].contains_key(key) {
                Err(StateError::FragmentNotFound)
            } else {
                Ok(self.rooms[id].containers[container][key])
            },
        }
    }

    /// What a reader gets of a key: its value and version, unless it was deleted.
    pub open spec fn read(self, id: u64, container: Seq<char>, key: Seq<char>) -> Result<
        (Seq<char>, u64),
        StateError,
    > {
        match self.entry(id, container, key) {
            Err(e) => Err(e),
            Ok(fragment) => if fragment.value == "null"@ {
                Err(StateError::FragmentTombstone)
            } else {
                Ok((fragment.value, fragment.key_version))
            },
        }
    }
}

impl AppState {
    /// The value of a key and its version.
    pub fn get_fragment(&self, room_id: u64, container: &str, key: &str) -> (r: Result<
        (Value, u64),
        StateError,
    >)
        ensures
            match r {
                Ok((value, version)) => self@.read(room_id, container@, key@) == Ok::<
                    (Seq<char>, u64),
                    StateError,
                >((value@, version)),
                Err(e) => self@.read(room_id, container@, key@) == Err::<
                    (Seq<char>, u64),
                    StateError,
                >(e),
            },
    {
        match self.rooms.get(room_id) {
            None => Err(StateError::RoomNotFound),
            Some(room) => {
                if room.io_locked {
                    return Err(StateError::RoomIoBusy);
                }
                match room.containers.get(container) {
                    None => Err(StateError::ContainerNotFound),
                    Some(fragments) => match fragments.get(key) {
                        None => Err(StateError::FragmentNotFound),
                        Some(fragment) => {
                            if fragment.value.is_null() {
                                return Err(StateError::FragmentTombstone);
                            }
                            Ok((fragment.value.clone(), fragment.key_version))
                        },
                    },
                }
            },
        }
    }

    /// Whether the fragment of a key has been written to disk.
    pub fn get_fragment_persisted(&self, room_id: u64, container: &str, key: &str) -> (r: Result<
        bool,
        StateError,
    >)
        ensures
            r == (match self@.entry(room_id, container@, key@) {
                Ok(fragment) => Ok::<bool, StateError>(fragment.persisted),
                Err(e) => Err(e),
            }),
    {
        match self.rooms.get(room_id) {
            None => Err(StateError::RoomNotFound),
            Some(room) => {
                if room.io_locked {
                    return Err(StateError::RoomIoBusy);
                }
                match room.containers.get(container) {
                    None => Err(StateError::ContainerNotFound),
                    Some(fragments) => match fragments.get(key) {
                        None => Err(StateError::FragmentNotFound),
                        Some(fragment) => Ok(fragment.persisted),
                    },
                }
            },
        }
    }

    /// Marks the fragment of a key as written to disk, or not.
    pub fn set_fragment_persisted(
        &mut self,
        room_id: u64,
        container: String,
        key: String,
        persisted: bool,
    ) -> (r: Result<(), StateError>)
        ensures
            ({
                let before = old(self)@;
                match before.entry(room_id, container@, key@) {
                    Err(e) => r == Err::<(), StateError>(e) && final(self)@ == before,
                    Ok(fragment) => {
                        let room = before.rooms[room_id];
                        let changed = FragmentView { persisted, ..fragment };
                        &&& r == Ok::<(), StateError>(())
                        &&& final(self)@ == before.with_room(
                            room_id,
                            RoomView {
                                containers: room.containers.insert(
                                    container@,
                                    room.containers[container@].insert(key@, changed),
                                ),
                                ..room
                            },
                        )
                    },
                }
            }),
    {
        match self.check_room(room_id) {
            Err(e) => {
                return Err(e);
            },
            Ok(_) => {},
        }
        let mut room: RoomState = self.rooms.remove(room_id).unwrap();
        let mut result: Result<(), StateError> = Ok(());
        match room.containers.remove(container.as_str()) {
            None => {
                result = Err(StateError::ContainerNotFound);
                assert(room@.containers =~= old(self)@.rooms[room_id].containers);
            },
            Some(mut fragments) => {
                match fragments.remove(key.as_str()) {
                    None => {
                        result = Err(StateError::FragmentNotFound);
                        assert(fragments@
                            =~= old(self)@.rooms[room_id].containers[container@]);
                    },
                    Some(entry) => {
                        let changed: FragmentEntry = FragmentEntry {
                            value: entry.value,
                            key_version: entry.key_version,
                            persisted,
                        };
                        fragments.insert(key.as_str(), changed);
                        assert(fragments@
                            =~= old(self)@.rooms[room_id].containers[container@].insert(
                            key@,
                            changed@,
                        ));
                    },
                }
                room.containers.insert(container.as_str(), fragments);
                assert(room@.containers =~= old(self)@.rooms[room_id].containers.insert(
                    container@,
                    fragments@,
                ));
            },
        }
        self.put_room(room_id, room);
        assert(self@.rooms =~= old(self)@.rooms.insert(room_id, room@));
        proof {
            if result is Err {
                assert(room@.containers =~= old(self)@.rooms[room_id].containers);
                assert(self@.rooms =~= old(self)@.rooms);
            }
        }
        result
    }

    /// The version counter of a room.
    pub fn room_version(&self, room_id: u64) -> (r: Result<u64, StateError>)
        ensures
            r == (match self@.refusal(room_id) {
                Some(e) => Err::<u64, StateError>(e),
                None => Ok(self@.rooms[room_id].room_counter),
            }),
    {
        match self.rooms.get(room_id) {
            None => Err(StateError::RoomNotFound),
            Some(room) => if room.io_locked {
                Err(StateError::RoomIoBusy)
            } else {
                Ok(room.room_counter)
            },
        }
    }

    /// The identifiers of all rooms in ascending order.
    pub fn list_rooms(&self) -> (r: Vec<u64>)
        ensures
            ascending(r@),
            r@.to_set() == self@.rooms.dom(),
    {
        self.rooms.keys()
    }

    /// What is told of a room.
    pub fn room_info(&self, room_id: u64) -> (r: Result<RoomInfo, StateError>)
        ensures
            match self@.refusal(room_id) {
                Some(e) => r == Err::<RoomInfo, StateError>(e),
                None => r matches Ok(info) && info.room_id == room_id && info.room_counter
                    == self@.rooms[room_id].room_counter && info.container_count
                    == self@.rooms[room_id].containers.dom().len() && info.fragment_count
                    == fragment_places(self@.rooms[room_id].containers).len(),
            },
    {
        match self.rooms.get(room_id) {
            None => Err(StateError::RoomNotFound),
            Some(room) => {
                if room.io_locked {
                    return Err(StateError::RoomIoBusy);
                }
                Ok(
                    RoomInfo {
                        room_id,
                        room_counter: room.room_counter,
                        container_count: room.containers.len(),
                        fragment_count: count_fragments(&room.containers),
                    },
                )
            },
        }
    }

    /// The counters of the server.
    pub fn metrics(&self) -> (r: Metrics)
        ensures
            r.room_count == self@.rooms.dom().len(),
            r.ws_connections == self@.total_ws_connections,
            r.next_room_id == self@.next_room_id,
            r.total_command_requests == self@.total_command_requests,
            r.command_error_count == self@.command_error_count,
            r.ws_auth_success == self@.ws_auth_success,
            r.ws_auth_failure == self@.ws_auth_failure,
            r.command_auth_failure == self@.command_auth_failure,
            r.invalid_command_count == self@.invalid_command_count,
            r.ws_connection_count == self@.ws_connection_count,
            r.ws_connection_latency_ns_total == self@.ws_connection_latency_ns_total,
            r.ws_update_rate_limited == self@.ws_update_rate_limited,
            r.ws_update_dropped == self@.ws_update_dropped,
            r.ws_send_errors == self@.ws_send_errors,
    {
        Metrics {
            room_count: self.rooms.len(),
            ws_connections: self.total_ws_connections,
            next_room_id: self.next_room_id,
            total_command_requests: self.total_command_requests,
            command_error_count: self.command_error_count,
            ws_auth_success: self.ws_auth_success,
            ws_auth_failure: self.ws_auth_failure,
            command_auth_failure: self.command_auth_failure,
            invalid_command_count: self.invalid_command_count,
            ws_connection_count: self.ws_connection_count,
            ws_connection_latency_ns_total: self.ws_connection_latency_ns_total,
            ws_update_rate_limited: self.ws_update_rate_limited,
            ws_update_dropped: self.ws_update_dropped,
            ws_send_errors: self.ws_send_errors,
        }
    }

    /// Sets the key that tokens are signed with.
    pub fn set_jwt_key(&mut self, key: String)
        ensures
            final(self)@ == (AppView { jwt_key: Some(key@), ..old(self)@ }),
    {
        self.jwt_key = Some(key);
    }

    /// Sets how long tokens are good for.
    pub fn set_jwt_ttl(&mut self, seconds: u64)
        ensures
            final(self)@ == (AppView { jwt_ttl_seconds: seconds, ..old(self)@ }),
    {
        self.jwt_ttl_seconds = seconds;
    }

    /// Sets the issuer that tokens name.
    pub fn set_jwt_issuer(&mut self, issuer: String)
        ensures
            final(self)@ == (AppView { jwt_issuer: Some(issuer@), ..old(self)@ }),
    {
        self.jwt_issuer = Some(issuer);
    }

    /// Sets the audience that tokens name.
    pub fn set_jwt_audience(&mut self, audience: String)
        ensures
            final(self)@ == (AppView { jwt_audience: Some(audience@), ..old(self)@ }),
    {
        self.jwt_audience = Some(audience);
    }

    /// Sets the key that callers of the command API must know. It may not be blank.
    pub fn set_command_api_key(&mut self, key: String) -> (r: Result<(), StateError>)
        ensures
            r == (if trim(key@).len() == 0 {
                Err::<(), StateError>(StateError::CommandApiKeyInvalid)
            } else {
                Ok(())
            }),
            final(self)@ == (if r is Ok {
                AppView { command_api_key: Some(key@), ..old(self)@ }
            } else {
                old(self)@
            }),
    {
        let trimmed: String = trimmed_string(key.as_str());
        proof {
            lemma_no_bytes(trimmed@);
        }
        if trimmed.as_str().is_empty() {
            return Err(StateError::CommandApiKeyInvalid);
        }
        self.command_api_key = Some(key);
        Ok(())
    }

    /// Opens a transaction: from now on writes and deletions wait.
    pub fn tx_begin(&mut self, room_id: u64) -> (r: Result<(), StateError>)
        ensures
            r == (match old(self)@.refusal(room_id) {
                Some(e) => Err::<(), StateError>(e),
                None => if old(self)@.rooms[room_id].tx_buffer is Some {
                    Err(StateError::TxAlreadyOpen)
                } else {
                    Ok(())
                },
            }),
            final(self)@ == (if r is Ok {
                old(self)@.with_room(
                    room_id,
                    old(self)@.rooms[room_id].with_buffer(Some(Seq::empty())),
                )
            } else {
                old(self)@
            }),
    {
        match self.check_room(room_id) {
            Err(e) => {
                return Err(e);
            },
            Ok(_) => {},
        }
        let mut room: RoomState = self.rooms.remove(room_id).unwrap();
        if room.tx_buffer.is_some() {
            self.put_room(room_id, room);
            assert(self@.rooms =~= old(self)@.rooms);
            return Err(StateError::TxAlreadyOpen);
        }
        let buffer: Vec<RoomCommand> = Vec::new();
        assert(commands_view(buffer@) =~= Seq::<RoomCommandView>::empty());
        room.tx_buffer = Some(buffer);
        self.put_room(room_id, room);
        assert(self@.rooms =~= old(self)@.rooms.insert(room_id, room@));
        Ok(())
    }

    /// Closes a transaction and applies what waited in it, in order.
    pub fn tx_end(&mut self, room_id: u64) -> (r: Result<(), StateError>)
        requires
            old(self)@.refusal(room_id) is None ==> old(self)@.rooms[room_id].can_commit(),
        ensures
            r == (match old(self)@.refusal(room_id) {
                Some(e) => Err::<(), StateError>(e),
                None => if old(self)@.rooms[room_id].tx_buffer is None {
                    Err(StateError::TxNotOpen)
                } else {
                    Ok(())
                },
            }),
            final(self)@ == (if r is Ok {
                old(self)@.with_room(
                    room_id,
                    old(self)@.rooms[room_id].with_buffer(None).apply_all(
                        old(self)@.rooms[room_id].tx_buffer->0,
                    ),
                )
            } else {
                old(self)@
            }),
    {
        match self.check_room(room_id) {
            Err(e) => {
                return Err(e);
            },
            Ok(_) => {},
        }
        let mut room: RoomState = self.rooms.remove(room_id).unwrap();
        match room.tx_buffer.take() {
            None => {
                self.put_room(room_id, room);
                assert(self@.rooms =~= old(self)@.rooms);
                Err(StateError::TxNotOpen)
            },
            Some(buffer) => {
                room.commit(buffer);
                self.put_room(room_id, room);
                assert(self@.rooms =~= old(self)@.rooms.insert(room_id, room@));
                Ok(())
            },
        }
    }

    /// Closes a transaction and drops what waited in it.
    pub fn tx_abort(&mut self, room_id: u64) -> (r: Result<(), StateError>)
        ensures
            r == (match old(self)@.refusal(room_id) {
                Some(e) => Err::<(), StateError>(e),
                None => Ok(()),
            }),
            final(self)@ == (if r is Ok {
                old(self)@.with_room(room_id, old(self)@.rooms[room_id].with_buffer(None))
            } else {
                old(self)@
            }),
    {
        match self.check_room(room_id) {
            Err(e) => {
                return Err(e);
            },
            Ok(_) => {},
        }
        let mut room: RoomState = self.rooms.remove(room_id).unwrap();
        room.tx_buffer = None;
        self.put_room(room_id, room);
        assert(self@.rooms =~= old(self)@.rooms.insert(room_id, room@));
        Ok(())
    }

    /// What a client may see of a room.
    pub fn room_snapshot(&self, room_id: u64, allowed_containers: &StrSet) -> (r: Option<
        RoomSnapshot,
    >)
        ensures
            match r {
                Some(snapshot) => self@.rooms.contains_key(room_id) && snapshot@
                    == self@.rooms[room_id].snapshot(allowed_containers@),
                None => !self@.rooms.contains_key(room_id),
            },
    {
        match self.rooms.get(room_id) {
            None => None,
            Some(room) => Some(
                RoomSnapshot {
                    room_counter: room.room_counter,
                    containers: collect_containers(&room.containers, allowed_containers, None),
                },
            ),
        }
    }

    /// What changed in a room since a version, as far as a client may see it.
    pub fn room_delta(&self, room_id: u64, since: u64, allowed_containers: &StrSet) -> (r: Option<
        RoomSnapshot,
    >)
        ensures
            match r {
                Some(delta) => self@.rooms.contains_key(room_id) && delta@
                    == self@.rooms[room_id].delta(since, allowed_containers@),
                None => !self@.rooms.contains_key(room_id),
            },
    {
        match self.rooms.get(room_id) {
            None => None,
            Some(room) => {
                if since >= room.room_counter {
                    return Some(
                        RoomSnapshot {
                            room_counter: room.room_counter,
                            containers: StrMap::new(),
                        },
                    );
                }
                Some(
                    RoomSnapshot {
                        room_counter: room.room_counter,
                        containers: collect_containers(
                            &room.containers,
                            allowed_containers,
                            Some(since),
                        ),
                    },
                )
            },
        }
    }
}

/// The places of the fragments of one container.
spec fn places_in(container: Seq<char>, fragments: Map<Seq<char>, FragmentView>) -> Set<
    (Seq<char>, Seq<char>),
> {
    fragments.dom().map(|key: Seq<char>| (container, key))
}

proof fn lemma_places_in(container: Seq<char>, fragments: Map<Seq<char>, FragmentView>)
    requires
        fragments.dom().finite(),
    ensures
        places_in(container, fragments).finite(),
        places_in(container, fragments).len() == fragments.dom().len(),
{
    let f = |key: Seq<char>| (container, key);
    fragments.dom().lemma_map_finite(f);
    vstd::set_lib::lemma_map_size(fragments.dom(), places_in(container, fragments), f);
}

/// Counts the fragments of all containers.
fn count_fragments(containers: &StrMap<StrMap<FragmentEntry>>) -> (r: u128)
    ensures
        r == fragment_places(containers@).len(),
{
    let n: usize = containers.len();
    let mut count: u128 = 0;
    let mut i: usize = 0;
    let ghost mut seen = Set::<(Seq<char>, Seq<char>)>::empty();
    while i < n
        invariant
            i <= n,
            n == containers.order().len(),
            containers.order().no_duplicates(),
            containers.order().to_set() == containers@.dom(),
            seen.finite(),
            count == seen.len(),
            count <= i * (usize::MAX as int),
            forall|place: (Seq<char>, Seq<char>)| #[trigger]
                seen.contains(place) <==> containers.order().take(i as int).contains(place.0)
                    && containers@[place.0].contains_key(place.1),
        decreases n - i,
    {
        let fragments: &StrMap<FragmentEntry> = containers.value_at(i);
        let size: usize = fragments.len();
        let ghost name = containers.order()[i as int];
        let ghost more = places_in(name, fragments@);
        proof {
            lemma_places_in(name, fragments@);
            lemma_take_one_more(containers.order(), i as int);
            assert(seen.disjoint(more));
            vstd::set_lib::lemma_set_disjoint_lens(seen, more);
            assert((i + 1) * (usize::MAX as int) == i * (usize::MAX as int) + usize::MAX)
                by (nonlinear_arith);
            assert((i + 1) * (usize::MAX as int) <= (usize::MAX as int) * (usize::MAX as int))
                by (nonlinear_arith)
                requires
                    i < usize::MAX,
            ;
            assert((usize::MAX as int) * (usize::MAX as int) <= u128::MAX) by (nonlinear_arith);
            let after = containers.order().take(i + 1);
            assert forall|place: (Seq<char>, Seq<char>)| #[trigger] seen.union(more).contains(
                place,
            ) <==> after.contains(place.0) && containers@[place.0].contains_key(place.1) by {
                if place.0 == name && containers@[name].contains_key(place.1) {
                    assert(fragments@.dom().contains(place.1));
                    assert(more.contains(place));
                }
            }
            seen = seen.union(more);
        }
        count = count + size as u128;
        i = i + 1;
    }
    proof {
        assert(containers.order().take(n as int) =~= containers.order());
        assert forall|place: (Seq<char>, Seq<char>)| seen.contains(place) == fragment_places(
            containers@,
        ).contains(place) by {
            assert(containers.order().to_set().contains(place.0) == containers@.dom().contains(
                place.0,
            ));
        }
        assert(seen =~= fragment_places(containers@));
    }
    count
}

// ---------------------------------------------------------------------------
// Tokens
// ---------------------------------------------------------------------------

/// The texts of a row, each once, in the order in which they first occur.
pub open spec fn distinct_texts(s: Seq<Seq<char>>) -> Seq<Seq<char>>
    decreases s.len(),
{
    if s.len() == 0 {
        s
    } else {
        let before = distinct_texts(s.drop_last());
        if before.contains(s.last()) {
            before
        } else {
            before.push(s.last())
        }
    }
}

/// The containers that a token grants: those asked for, each once, and the public one.
pub open spec fn granted(containers: Seq<Seq<char>>) -> Seq<Seq<char>> {
    distinct_texts(containers.push("public"@))
}

/// Whether a text stands in a row of strings.
pub(crate) fn holds_text(v: &Vec<String>, text: &str) -> (r: bool)
    ensures
        r == texts(v@).contains(text@),
{
    let mut i: usize = 0;
    while i < v.len()
        invariant
            i <= v@.len(),
            forall|k: int| 0 <= k < i ==> #[trigger] texts(v@)[k] != text@,
        decreases v@.len() - i,
    {
        assert(texts(v@)[i as int] == v@[i as int]@);
        if same(v[i].as_str(), text) {
            return true;
        }
        i = i + 1;
    }
    false
}

fn add_text(out: &mut Vec<String>, text: &str)
    ensures
        texts(final(out)@) == (if texts(old(out)@).contains(text@) {
            texts(old(out)@)
        } else {
            texts(old(out)@).push(text@)
        }),
{
    if !holds_text(out, text) {
        out.push(text.to_string());
        assert(texts(out@) =~= texts(old(out)@).push(text@));
    }
}

/// The containers that a token grants.
fn grant_containers(containers: &[String]) -> (r: Vec<String>)
    ensures
        texts(r@) == granted(texts(containers@)),
{
    let mut out: Vec<String> = Vec::new();
    let ghost all = texts(containers@);
    let mut i: usize = 0;
    assert(texts(out@) =~= distinct_texts(all.take(0)));
    while i < containers.len()
        invariant
            i <= containers@.len(),
            all == texts(containers@),
            texts(out@) == distinct_texts(all.take(i as int)),
        decreases containers@.len() - i,
    {
        proof {
            let next = all.take(i + 1);
            assert(next.drop_last() =~= all.take(i as int));
            assert(next.last() == containers@[i as int]@);
        }
        add_text(&mut out, containers[i].as_str());
        i = i + 1;
    }
    proof {
        assert(all.take(i as int) =~= all);
        assert(all.push("public"@).drop_last() =~= all);
    }
    add_text(&mut out, "public");
    out
}

/// The subject of a room's token: the word `room` and the identifier.
pub open spec fn room_subject(id: Seq<char>) -> Seq<char> {
    "room:"@ + id
}

impl AppView {
    /// Why a token for a room cannot be issued, if it cannot.
    pub open spec fn token_refusal(self, id: u64) -> Option<StateError> {
        match self.jwt_key {
            None => Some(StateError::JwtKeyNotConfigured),
            Some(key) => if byte_len(key) < MIN_JWT_KEY_BYTES {
                Some(StateError::JwtKeyTooShort)
            } else if self.jwt_issuer is None || self.jwt_audience is None {
                Some(StateError::JwtIssuerAudienceNotConfigured)
            } else {
                self.refusal(id)
            },
        }
    }

    /// The token for a room that is issued at a time.
    pub open spec fn token(self, id: u64, containers: Seq<Seq<char>>, issued: u64) -> Seq<char> {
        let room = decimal(id as nat);
        container_token(
            self.jwt_key->0,
            room_subject(room),
            room,
            granted(containers),
            saturating_sum(issued, self.jwt_ttl_seconds),
            self.jwt_issuer->0,
            self.jwt_audience->0,
        )
    }
}

impl AppState {
    /// Issues a token for a room at the given time of the clock.
    pub fn create_room_token_at(&mut self, room_id: u64, containers: &[String], now: u64) -> (r:
        Result<String, StateError>)
        ensures
            match old(self)@.token_refusal(room_id) {
                Some(e) => r == Err::<String, StateError>(e) && final(self)@ == old(self)@,
                None => {
                    let issued = issue_time(now, old(self)@.last_jwt_issue_seconds);
                    &&& r matches Ok(token)
                    &&& token@ == old(self)@.token(room_id, texts(containers@), issued)
                    &&& container_claims(
                        token@,
                        old(self)@.jwt_key->0,
                        old(self)@.jwt_issuer,
                        old(self)@.jwt_audience,
                    ) == Some(
                        (
                            room_subject(decimal(room_id as nat)),
                            decimal(room_id as nat),
                            Some(granted(texts(containers@))),
                            saturating_sum(issued, old(self)@.jwt_ttl_seconds),
                        ),
                    )
                    &&& final(self)@ == (AppView {
                        last_jwt_issue_seconds: Some(issued),
                        ..old(self)@
                    })
                },
            },
    {
        let key: &String = match &self.jwt_key {
            None => {
                return Err(StateError::JwtKeyNotConfigured);
            },
            Some(key) => key,
        };
        if key.as_str().as_bytes().len() < MIN_JWT_KEY_BYTES {
            return Err(StateError::JwtKeyTooShort);
        }
        let (issuer, audience): (&String, &String) = match (&self.jwt_issuer, &self.jwt_audience) {
            (Some(issuer), Some(audience)) => (issuer, audience),
            _ => {
                return Err(StateError::JwtIssuerAudienceNotConfigured);
            },
        };
        match self.check_room(room_id) {
            Err(e) => {
                return Err(e);
            },
            Ok(_) => {},
        }
        let grants: Vec<String> = grant_containers(containers);
        let issued: u64 = next_issue_time(now, self.last_jwt_issue_seconds);
        let exp: u64 = issued.saturating_add(self.jwt_ttl_seconds);
        let room: String = decimal_string(room_id);
        let mut sub: String = "room:".to_string();
        sub.append(room.as_str());
        let encoded: Result<String, String> = encode_container_token(
            key.as_str(),
            sub.as_str(),
            room.as_str(),
            &grants,
            exp,
            issuer.as_str(),
            audience.as_str(),
        );
        self.last_jwt_issue_seconds = Some(issued);
        match encoded {
            Ok(token) => Ok(token),
            Err(_) => Err(StateError::JwtKeyNotConfigured),
        }
    }

    /// Issues a token for a room now. Successive tokens are issued at ever later times.
    pub fn create_room_token(&mut self, room_id: u64, containers: &[String]) -> (r: Result<
        String,
        StateError,
    >)
        ensures
            match old(self)@.token_refusal(room_id) {
                Some(e) => r == Err::<String, StateError>(e) && final(self)@ == old(self)@,
                None => {
                    let issued = final(self)@.last_jwt_issue_seconds->0;
                    &&& r matches Ok(token)
                    &&& token@ == old(self)@.token(room_id, texts(containers@), issued)
                    &&& container_claims(
                        token@,
                        old(self)@.jwt_key->0,
                        old(self)@.jwt_issuer,
                        old(self)@.jwt_audience,
                    ) == Some(
                        (
                            room_subject(decimal(room_id as nat)),
                            decimal(room_id as nat),
                            Some(granted(texts(containers@))),
                            saturating_sum(issued, old(self)@.jwt_ttl_seconds),
                        ),
                    )
                    &&& final(self)@ == (AppView {
                        last_jwt_issue_seconds: Some(issued),
                        ..old(self)@
                    })
                    &&& exists|now: u64| #[trigger]
                        clock_gave(now) && issued == issue_time(
                            now,
                            old(self)@.last_jwt_issue_seconds,
                        )
                    &&& old(self)@.last_jwt_issue_seconds matches Some(last) ==> issued
                        >= saturating_sum(last, 1)
                },
            },
    {
        let now: u64 = seconds_since_epoch();
        assert(clock_gave(now));
        self.create_room_token_at(room_id, containers, now)
    }
}

} // verus!
