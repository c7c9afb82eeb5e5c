//! The state of the kernel that groups the fragments of a room in numbered
//! buckets: rooms, labels, members, transactions, snapshots, deltas and tokens.

use crate::collections::{ascending, ascending_texts, lemma_take_one_more, texts, IdMap, StrMap, StrSet};
use crate::json::Value;
use crate::state::{
    byte_len, drop_labels, label_ok, labels_without, lemma_no_bytes, optional_text, Metrics,
    RoomInfo, MAX_LABEL_BYTES, MIN_JWT_KEY_BYTES,
};
use crate::text::{decimal, lemma_decimal_injective, push_decimal, trim, trimmed_string};
use crate::tokens::{
    bucket_claims, bucket_token, clock_gave, encode_bucket_token, issue_time, next_issue_time,
    saturating_sum, seconds_since_epoch,
};
use std::collections::HashSet;
use vstd::prelude::*;
use vstd::string::*;

verus! {

broadcast use vstd::std_specs::hash::group_hash_axioms;

/// The bucket of the data that only the server may see.
pub const SERVER_ONLY_BUCKET_ID: u64 = 0xffff_ffff_ffff_ffff;

// ---------------------------------------------------------------------------
// Rooms
// ---------------------------------------------------------------------------

/// The value of one key, with the version of the room at which it was written.
#[derive(Debug)]
pub struct FragmentEntry {
    pub value: Value,
    pub key_version: u64,
}

pub ghost struct FragmentView {
    pub value: Seq<char>,
    pub key_version: u64,
}

impl View for FragmentEntry {
    type V = FragmentView;

    open spec fn view(&self) -> FragmentView {
        FragmentView { value: self.value@, key_version: self.key_version }
    }
}

/// An operation that waits in an open transaction.
#[derive(Debug)]
pub enum RoomCommand {
    SetValue { bucket_id: u64, key: String, value: Value },
    Del { bucket_id: u64, key: String },
}

pub ghost enum RoomCommandView {
    SetValue { bucket_id: u64, key: Seq<char>, value: Seq<char> },
    Del { bucket_id: u64, key: Seq<char> },
}

impl View for RoomCommand {
    type V = RoomCommandView;

    open spec fn view(&self) -> RoomCommandView {
        match *self {
            RoomCommand::SetValue { bucket_id, key, value } => RoomCommandView::SetValue {
                bucket_id,
                key: key@,
                value: value@,
            },
            RoomCommand::Del { bucket_id, key } => RoomCommandView::Del { bucket_id, key: key@ },
        }
    }
}

pub open spec fn commands_view(v: Seq<RoomCommand>) -> Seq<RoomCommandView> {
    v.map_values(|c: RoomCommand| c@)
}

/// A room: its buckets, the version counter, the operations of an open
/// transaction, the labels and flags of the buckets, the members, and whether what is kept
/// of it on disk is in memory.
pub struct RoomState {
    pub buckets: IdMap<StrMap<FragmentEntry>>,
    pub room_counter: u64,
    pub tx_buffer: Option<Vec<RoomCommand>>,
    pub bucket_labels: IdMap<String>,
    pub bucket_flags: IdMap<u32>,
    pub members: StrSet,
    pub loaded: bool,
}

#[verifier::ext_equal]
pub ghost struct RoomView {
    pub buckets: Map<u64, Map<Seq<char>, FragmentView>>,
    pub room_counter: u64,
    pub tx_buffer: Option<Seq<RoomCommandView>>,
    pub bucket_labels: Map<u64, Seq<char>>,
    pub bucket_flags: Map<u64, u32>,
    pub members: Set<Seq<char>>,
    pub loaded: bool,
}

impl View for RoomState {
    type V = RoomView;

    open spec fn view(&self) -> RoomView {
        RoomView {
            buckets: self.buckets@,
            room_counter: self.room_counter,
            tx_buffer: match self.tx_buffer {
                Some(buffer) => Some(commands_view(buffer@)),
                None => None,
            },
            bucket_labels: self.bucket_labels@,
            bucket_flags: self.bucket_flags@,
            members: self.members@,
            loaded: self.loaded,
        }
    }
}

impl RoomView {
    pub open spec fn fresh() -> RoomView {
        RoomView {
            buckets: Map::empty(),
            room_counter: 0,
            tx_buffer: None,
            bucket_labels: Map::empty(),
            bucket_flags: Map::empty(),
            members: Set::empty(),
            loaded: true,
        }
    }

    /// The fragments of a bucket; none where there is no such bucket.
    pub open spec fn fragments(self, bucket_id: u64) -> Map<Seq<char>, FragmentView> {
        if self.buckets.contains_key(bucket_id) {
            self.buckets[bucket_id]
        } else {
            Map::empty()
        }
    }

    /// The room after a value was written: the counter goes up by one, and the key
    /// holds the value with the new version.
    pub open spec fn write(self, bucket_id: u64, key: Seq<char>, value: Seq<char>) -> RoomView {
        let version = (self.room_counter + 1) as u64;
        RoomView {
            buckets: self.buckets.insert(
                bucket_id,
                self.fragments(bucket_id).insert(key, FragmentView { value, key_version: version }),
            ),
            room_counter: version,
            ..self
        }
    }

    /// The room after one operation of a transaction. A deletion writes a tombstone,
    /// also where the key or the bucket was not there.
    pub open spec fn apply(self, command: RoomCommandView) -> RoomView {
        match command {
            RoomCommandView::SetValue { bucket_id, key, value } => self.write(
                bucket_id,
                key,
                value,
            ),
            RoomCommandView::Del { bucket_id, key } => self.write(bucket_id, key, "null"@),
        }
    }

    /// The room after a row of operations, the first one first.
    pub open spec fn apply_all(self, commands: Seq<RoomCommandView>) -> RoomView
        decreases commands.len(),
    {
        if commands.len() == 0 {
            self
        } else {
            self.apply_all(commands.drop_last()).apply(commands.last())
        }
    }

    pub open spec fn with_buffer(self, buffer: Option<Seq<RoomCommandView>>) -> RoomView {
        RoomView { tx_buffer: buffer, ..self }
    }

    /// The room after an operation: it waits in the open transaction, or it is done
    /// at once.
    pub open spec fn submit(self, command: RoomCommandView) -> RoomView {
        match self.tx_buffer {
            Some(buffer) => self.with_buffer(Some(buffer.push(command))),
            None => self.apply(command),
        }
    }

    /// Whether the counter can take an operation that is done at once.
    pub open spec fn can_submit(self) -> bool {
        self.tx_buffer is None ==> self.room_counter < u64::MAX
    }

    /// Whether the counter can take the operations of the open transaction.
    pub open spec fn can_commit(self) -> bool {
        self.tx_buffer matches Some(buffer) ==> self.room_counter + buffer.len() <= u64::MAX
    }

    /// No fragment is newer than the room, and each was written at a version of its own.
    pub open spec fn valid(self) -> bool {
        &&& forall|b: u64, k: Seq<char>| #[trigger]
            self.holds(b, k) ==> 0 < self.buckets[b][k].key_version <= self.room_counter
        &&& forall|b1: u64, k1: Seq<char>, b2: u64, k2: Seq<char>|
            #[trigger] self.holds(b1, k1) && #[trigger] self.holds(b2, k2)
                && self.buckets[b1][k1].key_version == self.buckets[b2][k2].key_version ==> b1 == b2
                && k1 == k2
    }

    /// Whether there is an entry, be it a tombstone, for a key.
    pub open spec fn holds(self, bucket_id: u64, key: Seq<char>) -> bool {
        self.buckets.contains_key(bucket_id) && self.buckets[bucket_id].contains_key(key)
    }
}

impl RoomState {
    pub(crate) fn new() -> (r: RoomState)
        ensures
            r@ == RoomView::fresh(),
    {
        RoomState {
            buckets: IdMap::new(),
            room_counter: 0,
            tx_buffer: None,
            bucket_labels: IdMap::new(),
            bucket_flags: IdMap::new(),
            members: StrSet::new(),
            loaded: true,
        }
    }

    /// Whether an operation can be submitted: there is a version left for it, or it goes into
    /// the open transaction.
    pub fn has_version_left(&self) -> (r: bool)
        ensures
            r == self@.can_submit(),
    {
        self.tx_buffer.is_some() || self.room_counter < u64::MAX
    }

    /// Writes a value at the next version.
    fn write(&mut self, bucket_id: u64, key: &str, value: Value)
        requires
            old(self)@.room_counter < u64::MAX,
        ensures
            final(self)@ == old(self)@.write(bucket_id, key@, value@),
    {
        self.room_counter = self.room_counter + 1;
        let mut fragments: StrMap<FragmentEntry> = match self.buckets.remove(bucket_id) {
            Some(fragments) => fragments,
            None => StrMap::new(),
        };
        fragments.insert(key, FragmentEntry { value, key_version: self.room_counter });
        self.buckets.insert(bucket_id, fragments);
        assert(self@.buckets =~= old(self)@.write(bucket_id, key@, value@).buckets);
    }

    /// Applies the operations of the open transaction in their order, and closes it.
    fn commit(&mut self, buffer: Vec<RoomCommand>)
        requires
            old(self)@.room_counter + buffer@.len() <= u64::MAX,
        ensures
            final(self)@ == old(self)@.apply_all(commands_view(buffer@)),
    {
        let ghost all = commands_view(buffer@);
        let mut i: usize = 0;
        assert(all.take(0) =~= Seq::<RoomCommandView>::empty());
        while i < buffer.len()
            invariant
                i <= buffer@.len(),
                all == commands_view(buffer@),
                old(self)@.room_counter + buffer@.len() <= u64::MAX,
                self@ == old(self)@.apply_all(all.take(i as int)),
                self@.room_counter == old(self)@.room_counter + i,
            decreases buffer@.len() - i,
        {
            proof {
                let next = all.take(i + 1);
                assert(next.drop_last() =~= all.take(i as int));
                assert(next.last() == buffer@[i as int]@);
            }
            match &buffer[i] {
                RoomCommand::SetValue { bucket_id, key, value } => {
                    self.write(*bucket_id, key.as_str(), value.clone());
                },
                RoomCommand::Del { bucket_id, key } => {
                    self.write(*bucket_id, key.as_str(), Value::null());
                },
            }
            i = i + 1;
        }
        assert(all.take(i as int) =~= all);
    }
}

// ---------------------------------------------------------------------------
// Snapshots and deltas
// ---------------------------------------------------------------------------

/// What a client sees of a room: the counter, and the values by bucket name and key.
pub struct RoomSnapshot {
    pub room_counter: u64,
    pub buckets: StrMap<StrMap<Value>>,
}

#[verifier::ext_equal]
pub ghost struct SnapshotView {
    pub room_counter: u64,
    pub buckets: Map<Seq<char>, Map<Seq<char>, Seq<char>>>,
}

impl View for RoomSnapshot {
    type V = SnapshotView;

    open spec fn view(&self) -> SnapshotView {
        SnapshotView { room_counter: self.room_counter, buckets: self.buckets@ }
    }
}

/// Whether a bucket may be shown: it is the public one or an allowed one, but never
/// the one of the server.
pub open spec fn visible(bucket_id: u64, allowed: Set<u64>) -> bool {
    bucket_id != SERVER_ONLY_BUCKET_ID && (bucket_id == 0 || allowed.contains(bucket_id))
}

/// The name under which a bucket is shown.
pub open spec fn bucket_name(bucket_id: u64) -> Seq<char> {
    "bucket_"@ + decimal(bucket_id as nat)
}

/// Whether a fragment is shown: in a snapshot if it is not a tombstone, in a delta
/// if it is newer than the version that the client has seen.
pub open spec fn shown(fragment: FragmentView, since: Option<u64>) -> bool {
    match since {
        None => fragment.value != "null"@,
        Some(version) => fragment.key_version > version,
    }
}

/// The values of the fragments that are shown.
pub open spec fn shown_values(
    fragments: Map<Seq<char>, FragmentView>,
    since: Option<u64>,
) -> Map<Seq<char>, Seq<char>> {
    Map::new(
        |key: Seq<char>| fragments.contains_key(key) && shown(fragments[key], since),
        |key: Seq<char>| fragments[key].value,
    )
}

/// Whether a bucket is part of what is shown. A delta leaves out the buckets in which
/// nothing changed.
pub open spec fn bucket_shown(
    buckets: Map<u64, Map<Seq<char>, FragmentView>>,
    allowed: Set<u64>,
    since: Option<u64>,
    id: u64,
) -> bool {
    buckets.contains_key(id) && visible(id, allowed) && (since is Some ==> shown_values(
        buckets[id],
        since,
    ) != Map::<Seq<char>, Seq<char>>::empty())
}

/// The bucket with a name.
pub open spec fn bucket_named(name: Seq<char>) -> u64 {
    choose|id: u64| bucket_name(id) == name
}

/// The buckets that are shown, by their names, with their values.
pub open spec fn shown_buckets(
    buckets: Map<u64, Map<Seq<char>, FragmentView>>,
    allowed: Set<u64>,
    since: Option<u64>,
) -> Map<Seq<char>, Map<Seq<char>, Seq<char>>> {
    Map::new(
        |name: Seq<char>|
            name == bucket_name(bucket_named(name)) && bucket_shown(
                buckets,
                allowed,
                since,
                bucket_named(name),
            ),
        |name: Seq<char>| shown_values(buckets[bucket_named(name)], since),
    )
}

/// Different buckets have different names.
pub proof fn lemma_bucket_name(id: u64)
    ensures
        bucket_named(bucket_name(id)) == id,
{
    let name = bucket_name(id);
    let other = bucket_named(name);
    assert(bucket_name(other) == name);
    let n = "bucket_"@.len() as int;
    assert(bucket_name(other).skip(n) =~= decimal(other as nat));
    assert(bucket_name(id).skip(n) =~= decimal(id as nat));
    lemma_decimal_injective(other as nat, id as nat);
}

impl RoomView {
    pub open spec fn snapshot(self, allowed: Set<u64>) -> SnapshotView {
        SnapshotView {
            room_counter: self.room_counter,
            buckets: shown_buckets(self.buckets, allowed, None),
        }
    }

    pub open spec fn delta(self, since: u64, allowed: Set<u64>) -> SnapshotView {
        SnapshotView {
            room_counter: self.room_counter,
            buckets: if since >= self.room_counter {
                Map::empty()
            } else {
                shown_buckets(self.buckets, allowed, Some(since))
            },
        }
    }
}

/// Collects the values of the fragments that are shown.
fn collect_values(fragments: &StrMap<FragmentEntry>, since: Option<u64>) -> (r: StrMap<Value>)
    ensures
        r@ == shown_values(fragments@, since),
{
    let mut out: StrMap<Value> = StrMap::new();
    let n: usize = fragments.len();
    let mut i: usize = 0;
    while i < n
        invariant
            i <= n,
            n == fragments.order().len(),
            fragments.order().no_duplicates(),
            fragments.order().to_set() == fragments@.dom(),
            forall|key: Seq<char>|
                #![trigger out@.contains_key(key)]
                out@.contains_key(key) <==> fragments.order().take(i as int).contains(key) && shown(
                    fragments@[key],
                    since,
                ),
            forall|key: Seq<char>|
                #![trigger out@[key]]
                out@.contains_key(key) ==> out@[key] == fragments@[key].value,
        decreases n - i,
    {
        let entry: &FragmentEntry = fragments.value_at(i);
        let show: bool = match since {
            None => !entry.value.is_null(),
            Some(version) => entry.key_version > version,
        };
        let ghost key = fragments.order()[i as int];
        if show {
            out.insert(fragments.key_at(i), entry.value.clone());
        }
        proof {
            lemma_take_one_more(fragments.order(), i as int);
        }
        i = i + 1;
    }
    proof {
        assert(fragments.order().take(n as int) =~= fragments.order());
        assert forall|key: Seq<char>| fragments.order().contains(key) == fragments@.contains_key(
            key,
        ) by {
            assert(fragments.order().to_set().contains(key) == fragments@.dom().contains(key));
        }
        assert(out@ =~= shown_values(fragments@, since));
    }
    out
}

/// The name under which a bucket is shown.
fn name_bucket(bucket_id: u64) -> (r: String)
    ensures
        r@ == bucket_name(bucket_id),
{
    let mut name: String = "bucket_".to_string();
    push_decimal(&mut name, bucket_id);
    name
}

/// Collects the buckets that are shown.
fn collect_buckets(
    buckets: &IdMap<StrMap<FragmentEntry>>,
    allowed: &HashSet<u64>,
    since: Option<u64>,
) -> (r: StrMap<StrMap<Value>>)
    ensures
        r@ == shown_buckets(buckets@, allowed@, since),
{
    let mut out: StrMap<StrMap<Value>> = StrMap::new();
    let keys: Vec<u64> = buckets.keys();
    let mut i: usize = 0;
    let ghost goal = shown_buckets(buckets@, allowed@, since);
    while i < keys.len()
        invariant
            i <= keys@.len(),
            keys@.to_set() == buckets@.dom(),
            goal == shown_buckets(buckets@, allowed@, since),
            forall|name: Seq<char>|
                #![trigger out@.contains_key(name)]
                out@.contains_key(name) <==> goal.contains_key(name) && keys@.take(
                    i as int,
                ).contains(bucket_named(name)),
            forall|name: Seq<char>|
                #![trigger out@[name]]
                out@.contains_key(name) ==> out@[name] == goal[name],
        decreases keys@.len() - i,
    {
        let id: u64 = keys[i];
        proof {
            assert(keys@.to_set().contains(id));
            lemma_bucket_name(id);
        }
        if id != SERVER_ONLY_BUCKET_ID && (id == 0 || allowed.contains(&id)) {
            match buckets.get(id) {
                None => {},
                Some(fragments) => {
                    let values: StrMap<Value> = collect_values(fragments, since);
                    let empty: bool = values.len() == 0;
                    assert(empty == (values@ == Map::<Seq<char>, Seq<char>>::empty())) by {
                        if values@.dom().len() == 0 {
                            assert(values@.dom() =~= Set::<Seq<char>>::empty());
                            assert(values@ =~= Map::<Seq<char>, Seq<char>>::empty());
                        }
                        if values@ == Map::<Seq<char>, Seq<char>>::empty() {
                            assert(values@.dom() =~= Set::<Seq<char>>::empty());
                        }
                    }
                    if since.is_none() || !empty {
                        let name: String = name_bucket(id);
                        out.insert(name.as_str(), values);
                    }
                },
            }
        }
        proof {
            lemma_take_one_more(keys@, i as int);
        }
        i = i + 1;
    }
    proof {
        assert(keys@.take(i as int) =~= keys@);
        assert forall|name: Seq<char>| #[trigger] goal.contains_key(name) implies keys@.contains(
            bucket_named(name),
        ) by {
            assert(keys@.to_set().contains(bucket_named(name)));
        }
        assert(out@ =~= goal);
    }
    out
}

// ---------------------------------------------------------------------------
// Errors
// ---------------------------------------------------------------------------

/// Why an operation on the state is refused.
#[derive(Debug, Clone, Copy, PartialEq, Eq, Structural)]
pub enum StateError {
    RoomNotFound,
    /// What is kept of the room on disk is not in memory.
    RoomNotLoaded,
    BucketNotFound,
    FragmentNotFound,
    /// The fragment was deleted.
    FragmentTombstone,
    TxNotOpen,
    TxAlreadyOpen,
    JwtKeyNotConfigured,
    JwtIssuerAudienceNotConfigured,
    JwtKeyTooShort,
    /// The bucket of the server cannot be granted.
    ReservedBucketId,
    /// The subject of the token is not a member of the room.
    InvalidMember,
    CommandApiKeyInvalid,
    LabelNotFound,
    /// The label belongs to another room.
    LabelInUse,
    /// The label is empty or too long.
    LabelInvalid,
}

pub open spec fn error_text(e: StateError) -> Seq<char> {
    match e {
        StateError::RoomNotFound => "room_not_found"@,
        StateError::RoomNotLoaded => "room_not_loaded"@,
        StateError::BucketNotFound => "bucket_not_found"@,
        StateError::FragmentNotFound => "not_found"@,
        StateError::FragmentTombstone => "tombstone"@,
        StateError::TxNotOpen => "tx_not_open"@,
        StateError::TxAlreadyOpen => "tx_already_open"@,
        StateError::JwtKeyNotConfigured => "jwt_key_not_configured"@,
        StateError::JwtIssuerAudienceNotConfigured => "jwt_issuer_audience_not_configured"@,
        StateError::JwtKeyTooShort => "jwt_key_too_short"@,
        StateError::ReservedBucketId => "reserved_bucket_id"@,
        StateError::InvalidMember => "invalid_member"@,
        StateError::CommandApiKeyInvalid => "command_api_key_invalid"@,
        StateError::LabelNotFound => "label_not_found"@,
        StateError::LabelInUse => "label_in_use"@,
        StateError::LabelInvalid => "label_invalid"@,
    }
}

impl StateError {
    /// The text of the error, as it stands in answers.
    pub fn to_text(&self) -> (r: String)
        ensures
            r@ == error_text(*self),
    {
        match self {
            StateError::RoomNotFound => "room_not_found".to_string(),
            StateError::RoomNotLoaded => "room_not_loaded".to_string(),
            StateError::BucketNotFound => "bucket_not_found".to_string(),
            StateError::FragmentNotFound => "not_found".to_string(),
            StateError::FragmentTombstone => "tombstone".to_string(),
            StateError::TxNotOpen => "tx_not_open".to_string(),
            StateError::TxAlreadyOpen => "tx_already_open".to_string(),
            StateError::JwtKeyNotConfigured => "jwt_key_not_configured".to_string(),
            StateError::JwtIssuerAudienceNotConfigured => "jwt_issuer_audience_not_configured".to_string(),
            StateError::JwtKeyTooShort => "jwt_key_too_short".to_string(),
            StateError::ReservedBucketId => "reserved_bucket_id".to_string(),
            StateError::InvalidMember => "invalid_member".to_string(),
            StateError::CommandApiKeyInvalid => "command_api_key_invalid".to_string(),
            StateError::LabelNotFound => "label_not_found".to_string(),
            StateError::LabelInUse => "label_in_use".to_string(),
            StateError::LabelInvalid => "label_invalid".to_string(),
        }
    }
}

// ---------------------------------------------------------------------------
// The application state
// ---------------------------------------------------------------------------

/// The rooms, the labels, the token settings and the counters of the kernel.
pub struct AppState {
    /// Open websocket connections.
    pub total_ws_connections: usize,
    /// Commands processed.
    pub total_command_requests: u64,
    /// Commands answered with an error.
    pub command_error_count: u64,
    pub ws_auth_success: u64,
    pub ws_auth_failure: u64,
    pub command_auth_failure: u64,
    /// Commands that could not be parsed or are unknown.
    pub invalid_command_count: u64,
    /// The lifetimes of all finished websocket connections, in nanoseconds.
    pub ws_connection_latency_ns_total: u128,
    /// Finished websocket connections.
    pub ws_connection_count: u64,
    /// Updates dropped because a queue was full.
    pub ws_update_dropped: u64,
    /// Updates dropped because of the rate limit.
    pub ws_update_rate_limited: u64,
    pub ws_send_errors: u64,
    pub rooms: IdMap<RoomState>,
    /// From label to room.
    pub labels: StrMap<u64>,
    pub next_room_id: u64,
    pub jwt_key: Option<String>,
    pub jwt_ttl_seconds: u64,
    pub jwt_issuer: Option<String>,
    pub jwt_audience: Option<String>,
    pub last_jwt_issue_seconds: Option<u64>,
    pub command_api_key: Option<String>,
}

#[verifier::ext_equal]
pub ghost struct AppView {
    pub total_ws_connections: usize,
    pub total_command_requests: u64,
    pub command_error_count: u64,
    pub ws_auth_success: u64,
    pub ws_auth_failure: u64,
    pub command_auth_failure: u64,
    pub invalid_command_count: u64,
    pub ws_connection_latency_ns_total: u128,
    pub ws_connection_count: u64,
    pub ws_update_dropped: u64,
    pub ws_update_rate_limited: u64,
    pub ws_send_errors: u64,
    pub rooms: Map<u64, RoomView>,
    pub labels: Map<Seq<char>, u64>,
    pub next_room_id: u64,
    pub jwt_key: Option<Seq<char>>,
    pub jwt_ttl_seconds: u64,
    pub jwt_issuer: Option<Seq<char>>,
    pub jwt_audience: Option<Seq<char>>,
    pub last_jwt_issue_seconds: Option<u64>,
    pub command_api_key: Option<Seq<char>>,
}

impl View for AppState {
    type V = AppView;

    open spec fn view(&self) -> AppView {
        AppView {
            total_ws_connections: self.total_ws_connections,
            total_command_requests: self.total_command_requests,
            command_error_count: self.command_error_count,
            ws_auth_success: self.ws_auth_success,
            ws_auth_failure: self.ws_auth_failure,
            command_auth_failure: self.command_auth_failure,
            invalid_command_count: self.invalid_command_count,
            ws_connection_latency_ns_total: self.ws_connection_latency_ns_total,
            ws_connection_count: self.ws_connection_count,
            ws_update_dropped: self.ws_update_dropped,
            ws_update_rate_limited: self.ws_update_rate_limited,
            ws_send_errors: self.ws_send_errors,
            rooms: self.rooms@,
            labels: self.labels@,
            next_room_id: self.next_room_id,
            jwt_key: optional_text(self.jwt_key),
            jwt_ttl_seconds: self.jwt_ttl_seconds,
            jwt_issuer: optional_text(self.jwt_issuer),
            jwt_audience: optional_text(self.jwt_audience),
            last_jwt_issue_seconds: self.last_jwt_issue_seconds,
            command_api_key: optional_text(self.command_api_key),
        }
    }
}

impl AppView {
    pub open spec fn fresh() -> AppView {
        AppView {
            total_ws_connections: 0,
            total_command_requests: 0,
            command_error_count: 0,
            ws_auth_success: 0,
            ws_auth_failure: 0,
            command_auth_failure: 0,
            invalid_command_count: 0,
            ws_connection_latency_ns_total: 0,
            ws_connection_count: 0,
            ws_update_dropped: 0,
            ws_update_rate_limited: 0,
            ws_send_errors: 0,
            rooms: Map::empty(),
            labels: Map::empty(),
            next_room_id: 1,
            jwt_key: None,
            jwt_ttl_seconds: 3600,
            jwt_issuer: None,
            jwt_audience: None,
            last_jwt_issue_seconds: None,
            command_api_key: None,
        }
    }

    pub open spec fn with_room(self, id: u64, room: RoomView) -> AppView {
        AppView { rooms: self.rooms.insert(id, room), ..self }
    }

    /// Why a room cannot be worked on, if it cannot.
    pub open spec fn refusal(self, id: u64) -> Option<StateError> {
        if !self.rooms.contains_key(id) {
            Some(StateError::RoomNotFound)
        } else if !self.rooms[id].loaded {
            Some(StateError::RoomNotLoaded)
        } else {
            None
        }
    }

    /// Every room is valid and older than the next identifier, and every label
    /// belongs to a room.
    pub open spec fn valid(self) -> bool {
        &&& forall|id: u64| #[trigger]
            self.rooms.contains_key(id) ==> id < self.next_room_id && self.rooms[id].valid()
        &&& forall|label: Seq<char>| #[trigger]
            self.labels.contains_key(label) ==> self.rooms.contains_key(self.labels[label])
    }
}

/// The places of all fragments of a room, tombstones with them.
pub open spec fn fragment_places<T>(buckets: Map<u64, Map<Seq<char>, T>>) -> Set<(u64, Seq<char>)> {
    Set::new(
        |place: (u64, Seq<char>)|
            buckets.contains_key(place.0) && buckets[place.0].contains_key(place.1),
    )
}

impl AppState {
    /// An empty state.
    pub fn new() -> (r: AppState)
        ensures
            r@ == AppView::fresh(),
            r@.valid(),
    {
        AppState {
            total_ws_connections: 0,
            total_command_requests: 0,
            command_error_count: 0,
            ws_auth_success: 0,
            ws_auth_failure: 0,
            command_auth_failure: 0,
            invalid_command_count: 0,
            ws_connection_latency_ns_total: 0,
            ws_connection_count: 0,
            ws_update_dropped: 0,
            ws_update_rate_limited: 0,
            ws_send_errors: 0,
            rooms: IdMap::new(),
            labels: StrMap::new(),
            next_room_id: 1,
            jwt_key: None,
            jwt_ttl_seconds: 3600,
            jwt_issuer: None,
            jwt_audience: None,
            last_jwt_issue_seconds: None,
            command_api_key: None,
        }
    }

    /// Creates a room and returns its identifier.
    pub fn create_room(&mut self) -> (r: u64)
        requires
            old(self)@.next_room_id < u64::MAX,
        ensures
            r == old(self)@.next_room_id,
            final(self)@ == (AppView {
                next_room_id: (r + 1) as u64,
                ..old(self)@.with_room(r, RoomView::fresh())
            }),
            old(self)@.valid() ==> final(self)@.valid() && !old(self)@.rooms.contains_key(r),
    {
        let room_id: u64 = self.next_room_id;
        self.next_room_id = room_id + 1;
        self.rooms.insert(room_id, RoomState::new());
        room_id
    }

    /// Deletes a room, and its labels with it.
    pub fn delete_room(&mut self, room_id: u64) -> (r: Result<(), StateError>)
        ensures
            r == (if old(self)@.rooms.contains_key(room_id) {
                Ok::<(), StateError>(())
            } else {
                Err(StateError::RoomNotFound)
            }),
            final(self)@ == (if r is Ok {
                AppView {
                    rooms: old(self)@.rooms.remove(room_id),
                    labels: labels_without(old(self)@.labels, room_id),
                    ..old(self)@
                }
            } else {
                old(self)@
            }),
            old(self)@.valid() ==> final(self)@.valid(),
    {
        if self.rooms.remove(room_id).is_some() {
            let labels: StrMap<u64> = drop_labels(&self.labels, room_id);
            self.labels = labels;
            Ok(())
        } else {
            assert(self@.rooms =~= old(self)@.rooms);
            Err(StateError::RoomNotFound)
        }
    }

    /// Gives a label to a room. White space around the label does not count.
    pub fn set_room_label(&mut self, room_id: u64, label: String) -> (r: Result<(), StateError>)
        ensures
            ({
                let old_state = old(self)@;
                let trimmed = trim(label@);
                &&& r == (if !label_ok(trimmed) {
                    Err(StateError::LabelInvalid)
                } else if !old_state.rooms.contains_key(room_id) {
                    Err(StateError::RoomNotFound)
                } else if old_state.labels.contains_key(trimmed) && old_state.labels[trimmed]
                    != room_id {
                    Err(StateError::LabelInUse)
                } else {
                    Ok::<(), StateError>(())
                })
                &&& final(self)@ == (if r is Ok {
                    AppView { labels: old_state.labels.insert(trimmed, room_id), ..old_state }
                } else {
                    old_state
                })
            }),
            old(self)@.valid() ==> final(self)@.valid(),
    {
        let trimmed: String = trimmed_string(label.as_str());
        let bytes: &[u8] = trimmed.as_str().as_bytes();
        if trimmed.as_str().is_empty() || bytes.len() > MAX_LABEL_BYTES {
            proof {
                lemma_no_bytes(trimmed@);
            }
            return Err(StateError::LabelInvalid);
        }
        proof {
            lemma_no_bytes(trimmed@);
        }
        if !self.rooms.contains(room_id) {
            return Err(StateError::RoomNotFound);
        }
        match self.labels.get(trimmed.as_str()) {
            Some(existing) => {
                if *existing != room_id {
                    return Err(StateError::LabelInUse);
                }
                assert(self@.labels =~= old(self)@.labels.insert(trimmed@, room_id));
                return Ok(());
            },
            None => {},
        }
        self.labels.insert(trimmed.as_str(), room_id);
        Ok(())
    }

    /// The room that a label belongs to.
    pub fn get_room_id_by_label(&self, label: &str) -> (r: Result<u64, StateError>)
        ensures
            r == (if self@.labels.contains_key(trim(label@)) {
                Ok::<u64, StateError>(self@.labels[trim(label@)])
            } else {
                Err(StateError::LabelNotFound)
            }),
    {
        let trimmed: String = trimmed_string(label);
        match self.labels.get(trimmed.as_str()) {
            Some(id) => Ok(*id),
            None => Err(StateError::LabelNotFound),
        }
    }

    fn check_room(&self, room_id: u64) -> (r: Result<(), StateError>)
        ensures
            r == (match self@.refusal(room_id) {
                Some(e) => Err::<(), StateError>(e),
                None => Ok(()),
            }),
    {
        match self.rooms.get(room_id) {
            None => Err(StateError::RoomNotFound),
            Some(room) => if room.loaded {
                Ok(())
            } else {
                Err(StateError::RoomNotLoaded)
            },
        }
    }

    /// Puts a changed room back in its place.
    pub(crate) fn put_room(&mut self, room_id: u64, room: RoomState)
        ensures
            final(self)@ == old(self)@.with_room(room_id, room@),
    {
        self.rooms.insert(room_id, room);
    }

    /// Writes a value, or lets it wait in the open transaction.
    pub fn set_fragment(
        &mut self,
        room_id: u64,
        bucket_id: u64,
        key: String,
        value: Value,
    ) -> (r: Result<(), StateError>)
        requires
            old(self)@.refusal(room_id) is None ==> old(self)@.rooms[room_id].can_submit(),
        ensures
            r == (match old(self)@.refusal(room_id) {
                Some(e) => Err::<(), StateError>(e),
                None => Ok(()),
            }),
            final(self)@ == (if r is Ok {
                old(self)@.with_room(
                    room_id,
                    old(self)@.rooms[room_id].submit(
                        RoomCommandView::SetValue { bucket_id, key: key@, value: value@ },
                    ),
                )
            } else {
                old(self)@
            }),
    {
        match self.check_room(room_id) {
            Err(e) => {
                return Err(e);
            },
            Ok(_) => {},
        }
        let mut room: RoomState = self.rooms.remove(room_id).unwrap();
        match room.tx_buffer.take() {
            Some(mut buffer) => {
                let ghost before = buffer@;
                let command: RoomCommand = RoomCommand::SetValue { bucket_id, key, value };
                let ghost entry = command@;
                buffer.push(command);
                assert(commands_view(buffer@) =~= commands_view(before).push(entry));
                room.tx_buffer = Some(buffer);
            },
            None => {
                room.write(bucket_id, key.as_str(), value);
            },
        }
        self.put_room(room_id, room);
        assert(self@.rooms =~= old(self)@.rooms.insert(room_id, room@));
        Ok(())
    }

    /// Deletes a key by a tombstone, or lets the deletion wait in the open transaction.
    pub fn del_fragment(&mut self, room_id: u64, bucket_id: u64, key: String) -> (r: Result<
        (),
        StateError,
    >)
        requires
            old(self)@.refusal(room_id) is None ==> old(self)@.rooms[room_id].can_submit(),
        ensures
            r == (match old(self)@.refusal(room_id) {
                Some(e) => Err::<(), StateError>(e),
                None => if old(self)@.rooms[room_id].tx_buffer is None && !old(
                    self,
                )@.rooms[room_id].buckets.contains_key(bucket_id) {
                    Err(StateError::BucketNotFound)
                } else {
                    Ok(())
                },
            }),
            final(self)@ == (if r is Ok {
                old(self)@.with_room(
                    room_id,
                    old(self)@.rooms[room_id].submit(
                        RoomCommandView::Del { bucket_id, key: key@ },
                    ),
                )
            } else {
                old(self)@
            }),
    {
        match self.check_room(room_id) {
            Err(e) => {
                return Err(e);
            },
            Ok(_) => {},
        }
        let mut room: RoomState = self.rooms.remove(room_id).unwrap();
        match room.tx_buffer.take() {
            Some(mut buffer) => {
                let ghost before = buffer@;
                let command: RoomCommand = RoomCommand::Del { bucket_id, key };
                let ghost entry = command@;
                buffer.push(command);
                assert(commands_view(buffer@) =~= commands_view(before).push(entry));
                room.tx_buffer = Some(buffer);
            },
            None => {
                if !room.buckets.contains(bucket_id) {
                    self.put_room(room_id, room);
                    assert(self@.rooms =~= old(self)@.rooms);
                    return Err(StateError::BucketNotFound);
                }
                room.write(bucket_id, key.as_str(), Value::null());
            },
        }
        self.put_room(room_id, room);
        assert(self@.rooms =~= old(self)@.rooms.insert(room_id, room@));
        Ok(())
    }
}

impl AppView {
    /// The entry of a key, or why there is none to be had.
    pub open spec fn entry(self, id: u64, bucket_id: u64, key: Seq<char>) -> Result<
        FragmentView,
        StateError,
    > {
        match self.refusal(id) {
            Some(e) => Err(e),
            None => if !self.rooms[id].buckets.contains_key(bucket_id) {
                Err(StateError::BucketNotFound)
            } else if !self.rooms[id].buckets[bucket_id].contains_key(key) {
                Err(StateError::FragmentNotFound)
            } else {
                Ok(self.rooms[id].buckets[bucket_id][key])
            },
        }
    }

    /// What a reader gets of a key: its value and version, unless it was deleted.
    pub open spec fn read(self, id: u64, bucket_id: u64, key: Seq<char>) -> Result<
        (Seq<char>, u64),
        StateError,
    > {
        match self.entry(id, bucket_id, key) {
            Err(e) => Err(e),
            Ok(fragment) => if fragment.value == "null"@ {
                Err(StateError::FragmentTombstone)
            } else {
                Ok((fragment.value, fragment.key_version))
            },
        }
    }
}

impl AppState {
    /// The value of a key and its version.
    pub fn get_fragment(&self, room_id: u64, bucket_id: u64, key: &str) -> (r: Result<
        (Value, u64),
        StateError,
    >)
        ensures
            match r {
                Ok((value, version)) => self@.read(room_id, bucket_id, key@) == Ok::<
                    (Seq<char>, u64),
                    StateError,
                >((value@, version)),
                Err(e) => self@.read(room_id, bucket_id, key@) == Err::<
                    (Seq<char>, u64),
                    StateError,
                >(e),
            },
    {
        match self.rooms.get(room_id) {
            None => Err(StateError::RoomNotFound),
            Some(room) => {
                if !room.loaded {
                    return Err(StateError::RoomNotLoaded);
                }
                match room.buckets.get(bucket_id) {
                    None => Err(StateError::BucketNotFound),
                    Some(fragments) => match fragments.get(key) {
                        None => Err(StateError::FragmentNotFound),
                        Some(fragment) => {
                            if fragment.value.is_null() {
                                return Err(StateError::FragmentTombstone);
                            }
                            Ok((fragment.value.clone(), fragment.key_version))
                        },
                    },
                }
            },
        }
    }

    /// The version counter of a room.
    pub fn room_version(&self, room_id: u64) -> (r: Result<u64, StateError>)
        ensures
            r == (match self@.refusal(room_id) {
                Some(e) => Err::<u64, StateError>(e),
                None => Ok(self@.rooms[room_id].room_counter),
            }),
    {
        match self.rooms.get(room_id) {
            None => Err(StateError::RoomNotFound),
            Some(room) => if room.loaded {
                Ok(room.room_counter)
            } else {
                Err(StateError::RoomNotLoaded)
            },
        }
    }

    /// The identifiers of all rooms in ascending order.
    pub fn list_rooms(&self) -> (r: Vec<u64>)
        ensures
            ascending(r@),
            r@.to_set() == self@.rooms.dom(),
    {
        self.rooms.keys()
    }

    /// What is told of a room.
    pub fn room_info(&self, room_id: u64) -> (r: Result<RoomInfo, StateError>)
        ensures
            match self@.refusal(room_id) {
                Some(e) => r == Err::<RoomInfo, StateError>(e),
                None => r matches Ok(info) && info.room_id == room_id && info.room_counter
                    == self@.rooms[room_id].room_counter && info.container_count
                    == self@.rooms[room_id].buckets.dom().len() && info.fragment_count
                    == fragment_places(self@.rooms[room_id].buckets).len(),
            },
    {
        match self.rooms.get(room_id) {
            None => Err(StateError::RoomNotFound),
            Some(room) => {
                if !room.loaded {
                    return Err(StateError::RoomNotLoaded);
                }
                Ok(
                    RoomInfo {
                        room_id,
                        room_counter: room.room_counter,
                        container_count: room.buckets.len(),
                        fragment_count: count_fragments(&room.buckets),
                    },
                )
            },
        }
    }

    /// The counters of the server.
    pub fn metrics(&self) -> (r: Metrics)
        ensures
            r.room_count == self@.rooms.dom().len(),
            r.ws_connections == self@.total_ws_connections,
            r.next_room_id == self@.next_room_id,
            r.total_command_requests == self@.total_command_requests,
            r.command_error_count == self@.command_error_count,
            r.ws_auth_success == self@.ws_auth_success,
            r.ws_auth_failure == self@.ws_auth_failure,
            r.command_auth_failure == self@.command_auth_failure,
            r.invalid_command_count == self@.invalid_command_count,
            r.ws_connection_count == self@.ws_connection_count,
            r.ws_connection_latency_ns_total == self@.ws_connection_latency_ns_total,
            r.ws_update_rate_limited == self@.ws_update_rate_limited,
            r.ws_update_dropped == self@.ws_update_dropped,
            r.ws_send_errors == self@.ws_send_errors,
    {
        Metrics {
            room_count: self.rooms.len(),
            ws_connections: self.total_ws_connections,
            next_room_id: self.next_room_id,
            total_command_requests: self.total_command_requests,
            command_error_count: self.command_error_count,
            ws_auth_success: self.ws_auth_success,
            ws_auth_failure: self.ws_auth_failure,
            command_auth_failure: self.command_auth_failure,
            invalid_command_count: self.invalid_command_count,
            ws_connection_count: self.ws_connection_count,
            ws_connection_latency_ns_total: self.ws_connection_latency_ns_total,
            ws_update_rate_limited: self.ws_update_rate_limited,
            ws_update_dropped: self.ws_update_dropped,
            ws_send_errors: self.ws_send_errors,
        }
    }

    /// Sets the key that tokens are signed with.
    pub fn set_jwt_key(&mut self, key: String)
        ensures
            final(self)@ == (AppView { jwt_key: Some(key@), ..old(self)@ }),
    {
        self.jwt_key = Some(key);
    }

    /// Sets how long tokens are good for.
    pub fn set_jwt_ttl(&mut self, seconds: u64)
        ensures
            final(self)@ == (AppView { jwt_ttl_seconds: seconds, ..old(self)@ }),
    {
        self.jwt_ttl_seconds = seconds;
    }

    /// Sets the issuer that tokens name.
    pub fn set_jwt_issuer(&mut self, issuer: String)
        ensures
            final(self)@ == (AppView { jwt_issuer: Some(issuer@), ..old(self)@ }),
    {
        self.jwt_issuer = Some(issuer);
    }

    /// Sets the audience that tokens name.
    pub fn set_jwt_audience(&mut self, audience: String)
        ensures
            final(self)@ == (AppView { jwt_audience: Some(audience@), ..old(self)@ }),
    {
        self.jwt_audience = Some(audience);
    }

    /// Sets the key that callers of the command API must know. It may not be blank.
    pub fn set_command_api_key(&mut self, key: String) -> (r: Result<(), StateError>)
        ensures
            r == (if trim(key@).len() == 0 {
                Err::<(), StateError>(StateError::CommandApiKeyInvalid)
            } else {
                Ok(())
            }),
            final(self)@ == (if r is Ok {
                AppView { command_api_key: Some(key@), ..old(self)@ }
            } else {
                old(self)@
            }),
    {
        let trimmed: String = trimmed_string(key.as_str());
        proof {
            lemma_no_bytes(trimmed@);
        }
        if trimmed.as_str().is_empty() {
            return Err(StateError::CommandApiKeyInvalid);
        }
        self.command_api_key = Some(key);
        Ok(())
    }

    /// Opens a transaction: from now on writes and deletions wait.
    pub fn tx_begin(&mut self, room_id: u64) -> (r: Result<(), StateError>)
        ensures
            r == (match old(self)@.refusal(room_id) {
                Some(e) => Err::<(), StateError>(e),
                None => if old(self)@.rooms[room_id].tx_buffer is Some {
                    Err(StateError::TxAlreadyOpen)
                } else {
                    Ok(())
                },
            }),
            final(self)@ == (if r is Ok {
                old(self)@.with_room(
                    room_id,
                    old(self)@.rooms[room_id].with_buffer(Some(Seq::empty())),
                )
            } else {
                old(self)@
            }),
    {
        match self.check_room(room_id) {
            Err(e) => {
                return Err(e);
            },
            Ok(_) => {},
        }
        let mut room: RoomState = self.rooms.remove(room_id).unwrap();
        if room.tx_buffer.is_some() {
            self.put_room(room_id, room);
            assert(self@.rooms =~= old(self)@.rooms);
            return Err(StateError::TxAlreadyOpen);
        }
        let buffer: Vec<RoomCommand> = Vec::new();
        assert(commands_view(buffer@) =~= Seq::<RoomCommandView>::empty());
        room.tx_buffer = Some(buffer);
        self.put_room(room_id, room);
        assert(self@.rooms =~= old(self)@.rooms.insert(room_id, room@));
        Ok(())
    }

    /// Closes a transaction and applies what waited in it, in order.
    pub fn tx_end(&mut self, room_id: u64) -> (r: Result<(), StateError>)
        requires
            old(self)@.refusal(room_id) is None ==> old(self)@.rooms[room_id].can_commit(),
        ensures
            r == (match old(self)@.refusal(room_id) {
                Some(e) => Err::<(), StateError>(e),
                None => if old(self)@.rooms[room_id].tx_buffer is None {
                    Err(StateError::TxNotOpen)
                } else {
                    Ok(())
                },
            }),
            final(self)@ == (if r is Ok {
                old(self)@.with_room(
                    room_id,
                    old(self)@.rooms[room_id].with_buffer(None).apply_all(
                        old(self)@.rooms[room_id].tx_buffer->0,
                    ),
                )
            } else {
                old(self)@
            }),
    {
        match self.check_room(room_id) {
            Err(e) => {
                return Err(e);
            },
            Ok(_) => {},
        }
        let mut room: RoomState = self.rooms.remove(room_id).unwrap();
        match room.tx_buffer.take() {
            None => {
                self.put_room(room_id, room);
                assert(self@.rooms =~= old(self)@.rooms);
                Err(StateError::TxNotOpen)
            },
            Some(buffer) => {
                room.commit(buffer);
                self.put_room(room_id, room);
                assert(self@.rooms =~= old(self)@.rooms.insert(room_id, room@));
                Ok(())
            },
        }
    }

    /// Closes a transaction and drops what waited in it.
    pub fn tx_abort(&mut self, room_id: u64) -> (r: Result<(), StateError>)
        ensures
            r == (match old(self)@.refusal(room_id) {
                Some(e) => Err::<(), StateError>(e),
                None => Ok(()),
            }),
            final(self)@ == (if r is Ok {
                old(self)@.with_room(room_id, old(self)@.rooms[room_id].with_buffer(None))
            } else {
                old(self)@
            }),
    {
        match self.check_room(room_id) {
            Err(e) => {
                return Err(e);
            },
            Ok(_) => {},
        }
        let mut room: RoomState = self.rooms.remove(room_id).unwrap();
        room.tx_buffer = None;
        self.put_room(room_id, room);
        assert(self@.rooms =~= old(self)@.rooms.insert(room_id, room@));
        Ok(())
    }

    /// What a client may see of a room.
    pub fn room_snapshot(&self, room_id: u64, allowed_buckets: &HashSet<u64>) -> (r: Option<
        RoomSnapshot,
    >)
        ensures
            match r {
                Some(snapshot) => self@.rooms.contains_key(room_id) && snapshot@
                    == self@.rooms[room_id].snapshot(allowed_buckets@),
                None => !self@.rooms.contains_key(room_id),
            },
    {
        match self.rooms.get(room_id) {
            None => None,
            Some(room) => Some(
                RoomSnapshot {
                    room_counter: room.room_counter,
                    buckets: collect_buckets(&room.buckets, allowed_buckets, None),
                },
            ),
        }
    }

    /// What changed in a room since a version, as far as a client may see it.
    pub fn room_delta(&self, room_id: u64, since: u64, allowed_buckets: &HashSet<u64>) -> (r: Option<
        RoomSnapshot,
    >)
        ensures
            match r {
                Some(delta) => self@.rooms.contains_key(room_id) && delta@
                    == self@.rooms[room_id].delta(since, allowed_buckets@),
                None => !self@.rooms.contains_key(room_id),
            },
    {
        match self.rooms.get(room_id) {
            None => None,
            Some(room) => {
                if since >= room.room_counter {
                    return Some(
                        RoomSnapshot {
                            room_counter: room.room_counter,
                            buckets: StrMap::new(),
                        },
                    );
                }
                Some(
                    RoomSnapshot {
                        room_counter: room.room_counter,
                        buckets: collect_buckets(
                            &room.buckets,
                            allowed_buckets,
                            Some(since),
                        ),
                    },
                )
            },
        }
    }
}

/// The places of the fragments of one bucket.
pub open spec fn places_in<T>(bucket_id: u64, fragments: Map<Seq<char>, T>) -> Set<
    (u64, Seq<char>),
> {
    fragments.dom().map(|key: Seq<char>| (bucket_id, key))
}

pub(crate) proof fn lemma_places_in<T>(bucket_id: u64, fragments: Map<Seq<char>, T>)
    requires
        fragments.dom().finite(),
    ensures
        places_in(bucket_id, fragments).finite(),
        places_in(bucket_id, fragments).len() == fragments.dom().len(),
{
    let f = |key: Seq<char>| (bucket_id, key);
    fragments.dom().lemma_map_finite(f);
    vstd::set_lib::lemma_map_size(fragments.dom(), places_in(bucket_id, fragments), f);
}

/// Counts the fragments of all buckets.
pub(crate) fn count_fragments<T: View>(buckets: &IdMap<StrMap<T>>) -> (r: u128)
    ensures
        r == fragment_places(buckets@).len(),
        fragment_places(buckets@).finite(),
{
    let keys: Vec<u64> = buckets.keys();
    let mut count: u128 = 0;
    let mut i: usize = 0;
    let ghost mut seen = Set::<(u64, Seq<char>)>::empty();
    while i < keys.len()
        invariant
            i <= keys@.len(),
            ascending(keys@),
            keys@.to_set() == buckets@.dom(),
            seen.finite(),
            count == seen.len(),
            count <= i * (usize::MAX as int),
            forall|place: (u64, Seq<char>)| #[trigger]
                seen.contains(place) <==> keys@.take(i as int).contains(place.0)
                    && buckets@[place.0].contains_key(place.1),
        decreases keys@.len() - i,
    {
        let id: u64 = keys[i];
        let mut size: usize = 0;
        let ghost more = places_in(id, buckets@[id]);
        assert(keys@.to_set().contains(id));
        match buckets.get(id) {
            None => {},
            Some(fragments) => {
                size = fragments.len();
            },
        }
        proof {
            lemma_places_in(id, buckets@[id]);
            lemma_take_one_more(keys@, i as int);
            assert(seen.disjoint(more));
            vstd::set_lib::lemma_set_disjoint_lens(seen, more);
            assert((i + 1) * (usize::MAX as int) == i * (usize::MAX as int) + usize::MAX)
                by (nonlinear_arith);
            assert((i + 1) * (usize::MAX as int) <= (usize::MAX as int) * (usize::MAX as int))
                by (nonlinear_arith)
                requires
                    i < usize::MAX,
            ;
            assert((usize::MAX as int) * (usize::MAX as int) <= u128::MAX) by (nonlinear_arith);
            let after = keys@.take(i + 1);
            assert forall|place: (u64, Seq<char>)| #[trigger] seen.union(more).contains(
                place,
            ) <==> after.contains(place.0) && buckets@[place.0].contains_key(place.1) by {
                if place.0 == id && buckets@[id].contains_key(place.1) {
                    assert(buckets@[id].dom().contains(place.1));
                    assert(more.contains(place));
                }
            }
            seen = seen.union(more);
        }
        count = count + size as u128;
        i = i + 1;
    }
    proof {
        assert(keys@.take(i as int) =~= keys@);
        assert forall|place: (u64, Seq<char>)| seen.contains(place) == fragment_places(
            buckets@,
        ).contains(place) by {
            assert(keys@.to_set().contains(place.0) == buckets@.dom().contains(place.0));
        }
        assert(seen =~= fragment_places(buckets@));
    }
    count
}

// ---------------------------------------------------------------------------
// Labels, members and flags
// ---------------------------------------------------------------------------

impl AppView {
    /// Why a bucket of a room cannot be worked on, if it cannot.
    pub open spec fn bucket_refusal(self, id: u64, bucket_id: u64) -> Option<StateError> {
        match self.refusal(id) {
            Some(e) => Some(e),
            None => if self.rooms[id].buckets.contains_key(bucket_id) {
                None
            } else {
                Some(StateError::BucketNotFound)
            },
        }
    }
}

/// Whether a label leads to a room.
pub open spec fn has_label(labels: Map<Seq<char>, u64>, id: u64) -> bool {
    exists|label: Seq<char>| #[trigger] labels.contains_key(label) && labels[label] == id
}

/// The flags of a bucket; none are set where nothing was said of them.
pub open spec fn flags_of(room: RoomView, bucket_id: u64) -> u32 {
    if room.bucket_flags.contains_key(bucket_id) {
        room.bucket_flags[bucket_id]
    } else {
        0
    }
}

/// Flags with the bits of a mask set or cleared.
pub open spec fn masked(flags: u32, mask: u32, enabled: bool) -> u32 {
    if enabled {
        flags | mask
    } else {
        flags & !mask
    }
}

/// A text without the white space around it, if it is neither empty nor too long.
fn checked_label(label: &str) -> (r: Option<String>)
    ensures
        match r {
            Some(t) => t@ == trim(label@) && label_ok(trim(label@)),
            None => !label_ok(trim(label@)),
        },
{
    let trimmed: String = trimmed_string(label);
    proof {
        lemma_no_bytes(trimmed@);
    }
    if trimmed.as_str().is_empty() || trimmed.as_str().as_bytes().len() > MAX_LABEL_BYTES {
        None
    } else {
        Some(trimmed)
    }
}

impl AppState {
    /// A label of a room, if it has one. Where it has several, any of them.
    pub fn get_room_label(&self, room_id: u64) -> (r: Option<String>)
        ensures
            match r {
                Some(label) => self@.labels.contains_key(label@) && self@.labels[label@] == room_id,
                None => !has_label(self@.labels, room_id),
            },
    {
        let n: usize = self.labels.len();
        let mut i: usize = 0;
        while i < n
            invariant
                i <= n,
                n == self.labels.order().len(),
                self.labels.order().to_set() == self.labels@.dom(),
                forall|k: int|
                    0 <= k < i ==> self.labels@[#[trigger] self.labels.order()[k]] != room_id,
            decreases n - i,
        {
            if *self.labels.value_at(i) == room_id {
                return Some(self.labels.key_at(i).to_string());
            }
            i = i + 1;
        }
        proof {
            assert forall|label: Seq<char>| #[trigger] self@.labels.contains_key(
                label,
            ) implies self@.labels[label] != room_id by {
                assert(self.labels.order().to_set().contains(label));
                let k = choose|k: int|
                    0 <= k < self.labels.order().len() && self.labels.order()[k] == label;
                assert(self.labels@[self.labels.order()[k]] != room_id);
            }
        }
        None
    }

    /// Gives a label to a bucket. White space around the label does not count.
    pub fn set_bucket_label(&mut self, room_id: u64, bucket_id: u64, label: String) -> (r: Result<
        (),
        StateError,
    >)
        ensures
            r == (if !label_ok(trim(label@)) {
                Err::<(), StateError>(StateError::LabelInvalid)
            } else {
                match old(self)@.bucket_refusal(room_id, bucket_id) {
                    Some(e) => Err(e),
                    None => Ok(()),
                }
            }),
            final(self)@ == (if r is Ok {
                old(self)@.with_room(
                    room_id,
                    RoomView {
                        bucket_labels: old(self)@.rooms[room_id].bucket_labels.insert(
                            bucket_id,
                            trim(label@),
                        ),
                        ..old(self)@.rooms[room_id]
                    },
                )
            } else {
                old(self)@
            }),
    {
        let trimmed: String = match checked_label(label.as_str()) {
            None => {
                return Err(StateError::LabelInvalid);
            },
            Some(trimmed) => trimmed,
        };
        match self.check_room(room_id) {
            Err(e) => {
                return Err(e);
            },
            Ok(_) => {},
        }
        let mut room: RoomState = self.rooms.remove(room_id).unwrap();
        if !room.buckets.contains(bucket_id) {
            self.put_room(room_id, room);
            assert(self@.rooms =~= old(self)@.rooms);
            return Err(StateError::BucketNotFound);
        }
        room.bucket_labels.insert(bucket_id, trimmed);
        self.put_room(room_id, room);
        assert(self@.rooms =~= old(self)@.rooms.insert(room_id, room@));
        Ok(())
    }

    /// The label of a bucket, if it has one.
    pub fn get_bucket_label(&self, room_id: u64, bucket_id: u64) -> (r: Option<String>)
        ensures
            match r {
                Some(label) => self@.rooms.contains_key(room_id)
                    && self@.rooms[room_id].bucket_labels.contains_key(bucket_id) && label@
                    == self@.rooms[room_id].bucket_labels[bucket_id],
                None => !(self@.rooms.contains_key(room_id)
                    && self@.rooms[room_id].bucket_labels.contains_key(bucket_id)),
            },
    {
        match self.rooms.get(room_id) {
            None => None,
            Some(room) => match room.bucket_labels.get(bucket_id) {
                None => None,
                Some(label) => Some(label.clone()),
            },
        }
    }

    /// Makes a name a member of a room. White space around the name does not count.
    pub fn add_member(&mut self, room_id: u64, member: String) -> (r: Result<(), StateError>)
        ensures
            r == (if !label_ok(trim(member@)) {
                Err::<(), StateError>(StateError::LabelInvalid)
            } else {
                match old(self)@.refusal(room_id) {
                    Some(e) => Err(e),
                    None => Ok(()),
                }
            }),
            final(self)@ == (if r is Ok {
                old(self)@.with_room(
                    room_id,
                    RoomView {
                        members: old(self)@.rooms[room_id].members.insert(trim(member@)),
                        ..old(self)@.rooms[room_id]
                    },
                )
            } else {
                old(self)@
            }),
    {
        let trimmed: String = match checked_label(member.as_str()) {
            None => {
                return Err(StateError::LabelInvalid);
            },
            Some(trimmed) => trimmed,
        };
        match self.check_room(room_id) {
            Err(e) => {
                return Err(e);
            },
            Ok(_) => {},
        }
        let mut room: RoomState = self.rooms.remove(room_id).unwrap();
        room.members.insert(trimmed.as_str());
        self.put_room(room_id, room);
        assert(self@.rooms =~= old(self)@.rooms.insert(room_id, room@));
        Ok(())
    }

    /// Ends the membership of a name.
    pub fn remove_member(&mut self, room_id: u64, member: &str) -> (r: Result<(), StateError>)
        ensures
            r == (match old(self)@.refusal(room_id) {
                Some(e) => Err::<(), StateError>(e),
                None => if old(self)@.rooms[room_id].members.contains(member@) {
                    Ok(())
                } else {
                    Err(StateError::FragmentNotFound)
                },
            }),
            final(self)@ == (if r is Ok {
                old(self)@.with_room(
                    room_id,
                    RoomView {
                        members: old(self)@.rooms[room_id].members.remove(member@),
                        ..old(self)@.rooms[room_id]
                    },
                )
            } else {
                old(self)@
            }),
    {
        match self.check_room(room_id) {
            Err(e) => {
                return Err(e);
            },
            Ok(_) => {},
        }
        let mut room: RoomState = self.rooms.remove(room_id).unwrap();
        let found: bool = room.members.remove(member);
        self.put_room(room_id, room);
        assert(self@.rooms =~= old(self)@.rooms.insert(room_id, room@));
        if found {
            Ok(())
        } else {
            assert(room@.members =~= old(self)@.rooms[room_id].members);
            assert(self@.rooms =~= old(self)@.rooms);
            Err(StateError::FragmentNotFound)
        }
    }

    /// The members of a room in ascending order.
    pub fn list_members(&self, room_id: u64) -> (r: Result<Vec<String>, StateError>)
        ensures
            match self@.refusal(room_id) {
                Some(e) => r == Err::<Vec<String>, StateError>(e),
                None => r matches Ok(members) && ascending_texts(texts(members@)) && texts(
                    members@,
                ).to_set() == self@.rooms[room_id].members,
            },
    {
        match self.rooms.get(room_id) {
            None => Err(StateError::RoomNotFound),
            Some(room) => if room.loaded {
                Ok(room.members.sorted())
            } else {
                Err(StateError::RoomNotLoaded)
            },
        }
    }

    /// Sets all flags of a bucket.
    pub fn set_bucket_flags(&mut self, room_id: u64, bucket_id: u64, flags: u32) -> (r: Result<
        (),
        StateError,
    >)
        ensures
            r == (match old(self)@.bucket_refusal(room_id, bucket_id) {
                Some(e) => Err::<(), StateError>(e),
                None => Ok(()),
            }),
            final(self)@ == (if r is Ok {
                old(self)@.with_room(
                    room_id,
                    RoomView {
                        bucket_flags: old(self)@.rooms[room_id].bucket_flags.insert(
                            bucket_id,
                            flags,
                        ),
                        ..old(self)@.rooms[room_id]
                    },
                )
            } else {
                old(self)@
            }),
    {
        match self.check_room(room_id) {
            Err(e) => {
                return Err(e);
            },
            Ok(_) => {},
        }
        let mut room: RoomState = self.rooms.remove(room_id).unwrap();
        if !room.buckets.contains(bucket_id) {
            self.put_room(room_id, room);
            assert(self@.rooms =~= old(self)@.rooms);
            return Err(StateError::BucketNotFound);
        }
        room.bucket_flags.insert(bucket_id, flags);
        self.put_room(room_id, room);
        assert(self@.rooms =~= old(self)@.rooms.insert(room_id, room@));
        Ok(())
    }

    /// The flags of a bucket.
    pub fn get_bucket_flags(&self, room_id: u64, bucket_id: u64) -> (r: Result<u32, StateError>)
        ensures
            r == (match self@.bucket_refusal(room_id, bucket_id) {
                Some(e) => Err::<u32, StateError>(e),
                None => Ok(flags_of(self@.rooms[room_id], bucket_id)),
            }),
    {
        match self.rooms.get(room_id) {
            None => Err(StateError::RoomNotFound),
            Some(room) => {
                if !room.loaded {
                    return Err(StateError::RoomNotLoaded);
                }
                if !room.buckets.contains(bucket_id) {
                    return Err(StateError::BucketNotFound);
                }
                match room.bucket_flags.get(bucket_id) {
                    Some(flags) => Ok(*flags),
                    None => Ok(0),
                }
            },
        }
    }

    /// Sets or clears the bits of a mask in the flags of a bucket.
    pub fn set_bucket_flag_bit(
        &mut self,
        room_id: u64,
        bucket_id: u64,
        flag_mask: u32,
        enabled: bool,
    ) -> (r: Result<(), StateError>)
        ensures
            r == (match old(self)@.bucket_refusal(room_id, bucket_id) {
                Some(e) => Err::<(), StateError>(e),
                None => Ok(()),
            }),
            final(self)@ == (if r is Ok {
                old(self)@.with_room(
                    room_id,
                    RoomView {
                        bucket_flags: old(self)@.rooms[room_id].bucket_flags.insert(
                            bucket_id,
                            masked(
                                flags_of(old(self)@.rooms[room_id], bucket_id),
                                flag_mask,
                                enabled,
                            ),
                        ),
                        ..old(self)@.rooms[room_id]
                    },
                )
            } else {
                old(self)@
            }),
    {
        let current: u32 = match self.get_bucket_flags(room_id, bucket_id) {
            Err(e) => {
                return Err(e);
            },
            Ok(current) => current,
        };
        let flags: u32 = if enabled {
            current | flag_mask
        } else {
            current & !flag_mask
        };
        self.set_bucket_flags(room_id, bucket_id, flags)
    }
}

// ---------------------------------------------------------------------------
// Tokens
// ---------------------------------------------------------------------------

/// The numbers of a row, each once, in the order in which they first occur.
pub open spec fn distinct_ids(s: Seq<u64>) -> Seq<u64>
    decreases s.len(),
{
    if s.len() == 0 {
        s
    } else {
        let before = distinct_ids(s.drop_last());
        if before.contains(s.last()) {
            before
        } else {
            before.push(s.last())
        }
    }
}

/// The buckets that a token grants: those asked for, each once, and the public one.
pub open spec fn granted(buckets: Seq<u64>) -> Seq<u64> {
    distinct_ids(buckets.push(0))
}

fn add_id(out: &mut Vec<u64>, id: u64)
    ensures
        final(out)@ == (if old(out)@.contains(id) {
            old(out)@
        } else {
            old(out)@.push(id)
        }),
{
    let mut i: usize = 0;
    while i < out.len()
        invariant
            i <= out@.len(),
            out@ == old(out)@,
            forall|k: int| 0 <= k < i ==> #[trigger] out@[k] != id,
        decreases out@.len() - i,
    {
        if out[i] == id {
            return ;
        }
        i = i + 1;
    }
    out.push(id);
}

/// The buckets that a token grants.
fn grant_buckets(buckets: &[u64]) -> (r: Vec<u64>)
    ensures
        r@ == granted(buckets@),
{
    let mut out: Vec<u64> = Vec::new();
    let mut i: usize = 0;
    assert(out@ =~= distinct_ids(buckets@.take(0)));
    while i < buckets.len()
        invariant
            i <= buckets@.len(),
            out@ == distinct_ids(buckets@.take(i as int)),
        decreases buckets@.len() - i,
    {
        proof {
            let next = buckets@.take(i + 1);
            assert(next.drop_last() =~= buckets@.take(i as int));
            assert(next.last() == buckets@[i as int]);
        }
        add_id(&mut out, buckets[i]);
        i = i + 1;
    }
    proof {
        assert(buckets@.take(i as int) =~= buckets@);
        assert(buckets@.push(0).drop_last() =~= buckets@);
    }
    add_id(&mut out, 0);
    out
}

fn holds_reserved(buckets: &[u64]) -> (r: bool)
    ensures
        r == buckets@.contains(SERVER_ONLY_BUCKET_ID),
{
    let mut i: usize = 0;
    while i < buckets.len()
        invariant
            i <= buckets@.len(),
            forall|k: int| 0 <= k < i ==> #[trigger] buckets@[k] != SERVER_ONLY_BUCKET_ID,
        decreases buckets@.len() - i,
    {
        if buckets[i] == SERVER_ONLY_BUCKET_ID {
            return true;
        }
        i = i + 1;
    }
    false
}

impl AppView {
    /// Why a token for a member of a room cannot be issued, if it cannot.
    pub open spec fn token_refusal(self, id: u64, sub: Seq<char>, buckets: Seq<u64>) -> Option<
        StateError,
    > {
        match self.jwt_key {
            None => Some(StateError::JwtKeyNotConfigured),
            Some(key) => if byte_len(key) < MIN_JWT_KEY_BYTES {
                Some(StateError::JwtKeyTooShort)
            } else if self.jwt_issuer is None || self.jwt_audience is None {
                Some(StateError::JwtIssuerAudienceNotConfigured)
            } else if !self.rooms.contains_key(id) {
                Some(StateError::RoomNotFound)
            } else if trim(sub).len() == 0 || !self.rooms[id].members.contains(trim(sub)) {
                Some(StateError::InvalidMember)
            } else if buckets.contains(SERVER_ONLY_BUCKET_ID) {
                Some(StateError::ReservedBucketId)
            } else {
                None
            },
        }
    }

    /// The token for a member of a room that is issued at a time.
    pub open spec fn token(self, id: u64, sub: Seq<char>, buckets: Seq<u64>, issued: u64) -> Seq<
        char,
    > {
        bucket_token(
            self.jwt_key->0,
            trim(sub),
            id,
            granted(buckets),
            saturating_sum(issued, self.jwt_ttl_seconds),
            self.jwt_issuer->0,
            self.jwt_audience->0,
        )
    }
}

impl AppState {
    /// Issues a token for a member of a room at the given time of the clock.
    pub fn create_room_token_at(&mut self, room_id: u64, sub: &str, buckets: &[u64], now: u64) -> (r:
        Result<String, StateError>)
        ensures
            match old(self)@.token_refusal(room_id, sub@, buckets@) {
                Some(e) => r == Err::<String, StateError>(e) && final(self)@ == old(self)@,
                None => {
                    let issued = issue_time(now, old(self)@.last_jwt_issue_seconds);
                    &&& r matches Ok(token)
                    &&& token@ == old(self)@.token(room_id, sub@, buckets@, issued)
                    &&& bucket_claims(token@, old(self)@.jwt_key->0) == Some(
                        (
                            trim(sub@),
                            Some(room_id),
                            Some(granted(buckets@)),
                            saturating_sum(issued, old(self)@.jwt_ttl_seconds),
                        ),
                    )
                    &&& final(self)@ == (AppView {
                        last_jwt_issue_seconds: Some(issued),
                        ..old(self)@
                    })
                },
            },
    {
        let key: &String = match &self.jwt_key {
            None => {
                return Err(StateError::JwtKeyNotConfigured);
            },
            Some(key) => key,
        };
        if key.as_str().as_bytes().len() < MIN_JWT_KEY_BYTES {
            return Err(StateError::JwtKeyTooShort);
        }
        let (issuer, audience): (&String, &String) = match (&self.jwt_issuer, &self.jwt_audience) {
            (Some(issuer), Some(audience)) => (issuer, audience),
            _ => {
                return Err(StateError::JwtIssuerAudienceNotConfigured);
            },
        };
        let subject: String = trimmed_string(sub);
        proof {
            lemma_no_bytes(subject@);
        }
        match self.rooms.get(room_id) {
            None => {
                return Err(StateError::RoomNotFound);
            },
            Some(room) => {
                if subject.as_str().is_empty() || !room.members.contains(subject.as_str()) {
                    return Err(StateError::InvalidMember);
                }
            },
        }
        if holds_reserved(buckets) {
            return Err(StateError::ReservedBucketId);
        }
        let grants: Vec<u64> = grant_buckets(buckets);
        let issued: u64 = next_issue_time(now, self.last_jwt_issue_seconds);
        let exp: u64 = issued.saturating_add(self.jwt_ttl_seconds);
        let encoded: Result<String, String> = encode_bucket_token(
            key.as_str(),
            subject.as_str(),
            room_id,
            &grants,
            exp,
            issuer.as_str(),
            audience.as_str(),
        );
        self.last_jwt_issue_seconds = Some(issued);
        match encoded {
            Ok(token) => Ok(token),
            Err(_) => Err(StateError::JwtKeyNotConfigured),
        }
    }

    /// Issues a token for a member of a room now. Successive tokens are issued at ever
    /// later times.
    pub fn create_room_token(&mut self, room_id: u64, sub: &str, buckets: &[u64]) -> (r: Result<
        String,
        StateError,
    >)
        ensures
            match old(self)@.token_refusal(room_id, sub@, buckets@) {
                Some(e) => r == Err::<String, StateError>(e) && final(self)@ == old(self)@,
                None => {
                    let issued = final(self)@.last_jwt_issue_seconds->0;
                    &&& r matches Ok(token)
                    &&& token@ == old(self)@.token(room_id, sub@, buckets@, issued)
                    &&& bucket_claims(token@, old(self)@.jwt_key->0) == Some(
                        (
                            trim(sub@),
                            Some(room_id),
                            Some(granted(buckets@)),
                            saturating_sum(issued, old(self)@.jwt_ttl_seconds),
                        ),
                    )
                    &&& final(self)@ == (AppView {
                        last_jwt_issue_seconds: Some(issued),
                        ..old(self)@
                    })
                    &&& exists|now: u64| #[trigger]
                        clock_gave(now) && issued == issue_time(
                            now,
                            old(self)@.last_jwt_issue_seconds,
                        )
                    &&& old(self)@.last_jwt_issue_seconds matches Some(last) ==> issued
                        >= saturating_sum(last, 1)
                },
            },
    {
        let now: u64 = seconds_since_epoch();
        assert(clock_gave(now));
        self.create_room_token_at(room_id, sub, buckets, now)
    }
}

} // verus!
