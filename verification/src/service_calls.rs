//! What callers of the smaller parts can rely on: the client's connection, the lists of a room, the
//! identities it knows, the settings, and rooms that are kept on disk.

use crate::client::{after_attempt, auth_line, send_line, AfterAttempt, Link, LinkEvent};
use crate::collections::IdMap;
use crate::commands::{CommandResponse, KernelSignal};
use crate::json::{byte_numbers, json_string, json_text, json_text_of_bytes, Value};
use crate::kernel::SyncpondKernel;
use crate::kernel_calls::{room_emptied, room_filled};
use crate::kernel_state::{AppState, AppView, RoomState, StateError};
use crate::kernel_state_calls::same_elsewhere;
use crate::loading::{load_room, register_room, restore_buckets, unload_room, StoredRoom};
use crate::permissions::{ClientJwt, RoomClientIdentity, RoomPermissions};
use crate::persistence::{copy_records, BucketRecord};
use crate::protocol::{format_command, with_value, Command, Verb};
use crate::rate_limiter::RateLimiter;
use crate::rooms::{FragmentFlags, Room};
use crate::startup::{configure, ConfigError, Settings, SyncpondConfig};
use crate::text::{chars_of, decimal, trim};
use crate::tokens::next_issue_time;
use crate::upstream::CommandServer;
use vstd::prelude::*;
use vstd::string::*;

verus! {

// ---------------------------------------------------------------------------
// The client
// ---------------------------------------------------------------------------

/// What a client writes are lines: its key, or the text of a command, and the end of the line.
pub proof fn law_lines(key: &str, first: String, cmd: &Command, text: String, line: String)
    requires
        call_ensures(auth_line, (key,), first),
        call_ensures(format_command, (cmd,), text),
        call_ensures(send_line, (cmd,), line),
    ensures
        first@ == key@.push('\n'),
        line@ == text@.push('\n'),
{
    reveal_strlit("\n");
    assert(key@ + "\n"@ =~= key@.push('\n'));
    assert(text@ + "\n"@ =~= text@.push('\n'));
}

/// After an attempt that failed comes the next one until there were as many others as there are
/// retries.
pub proof fn law_attempts(attempt: usize, retries: usize, connected: bool, r: AfterAttempt)
    requires
        call_ensures(after_attempt, (attempt, retries, connected), r),
        attempt <= retries,
    ensures
        r == AfterAttempt::Connected <==> connected,
        r == AfterAttempt::GiveUp <==> !connected && attempt == retries,
        r matches AfterAttempt::Retry(next) ==> next == attempt + 1 && next <= retries,
{
}

/// A client begins with its first attempt. One that fails is followed by up to three others, and
/// then by a pause, after which it begins anew. So it does when it loses its connection. It stops
/// when it is asked to while it is not repeating an attempt, or when no one gives commands or takes
/// lines any more, and then it stays stopped. Nothing else makes a difference.
pub proof fn law_links(begin: Link, link: Link, event: LinkEvent, r: Link)
    requires
        call_ensures(Link::new, (), begin),
        call_ensures(Link::step, (link, event), r),
    ensures
        begin == (Link::Connecting { attempt: 0 }),
        match link {
            Link::Stopped => r == Link::Stopped,
            Link::Connecting { attempt } => match event {
                LinkEvent::ConnectSucceeded => r == Link::Connected,
                LinkEvent::ConnectFailed => if attempt < 3 {
                    r matches Link::Retrying { attempt: next } && next == attempt + 1
                } else {
                    r == Link::Pausing
                },
                LinkEvent::ShutdownRequested => if attempt == 0 {
                    r == Link::Stopped
                } else {
                    r == link
                },
                _ => r == link,
            },
            Link::Retrying { attempt } => if event == LinkEvent::WaitOver {
                r == (Link::Connecting { attempt })
            } else {
                r == link
            },
            Link::Pausing => if event == LinkEvent::WaitOver {
                r == (Link::Connecting { attempt: 0 })
            } else if event == LinkEvent::ShutdownRequested {
                r == Link::Stopped
            } else {
                r == link
            },
            Link::Connected => match event {
                LinkEvent::PeerClosed | LinkEvent::ReadFailed | LinkEvent::WriteFailed => r == (
                Link::Connecting { attempt: 0 }),
                LinkEvent::LineUnwanted
                | LinkEvent::SendersGone
                | LinkEvent::ShutdownRequested => r == Link::Stopped,
                _ => r == Link::Connected,
            },
        },
{
}

// ---------------------------------------------------------------------------
// Values and signals
// ---------------------------------------------------------------------------

/// A value is read from JSON as what it denotes; where text or bytes are no JSON, they become a
/// string that holds them.
pub proof fn law_values(
    source: &str,
    bytes: &[u8],
    parsed: Result<Value, String>,
    parsed_bytes: Result<Value, String>,
    of_text: Value,
    of_bytes: Value,
    null: Value,
)
    requires
        call_ensures(Value::parse, (source,), parsed),
        call_ensures(Value::parse_bytes, (bytes,), parsed_bytes),
        call_ensures(Value::from_text, (source,), of_text),
        call_ensures(Value::from_bytes, (bytes,), of_bytes),
        call_ensures(Value::null, (), null),
    ensures
        parsed is Ok <==> json_text(source@) is Ok,
        parsed matches Ok(value) ==> json_text(source@)->Ok_0 == value@ && of_text@ == value@,
        parsed is Err ==> of_text@ == json_string(source@),
        parsed_bytes is Ok <==> json_text_of_bytes(bytes@) is Ok,
        parsed_bytes matches Ok(value) ==> json_text_of_bytes(bytes@)->Ok_0 == value@ && of_bytes@
            == value@,
        parsed_bytes is Err ==> of_bytes@ == json_string(crate::json::lossy_text(bytes@)),
        null@ == "null"@,
{
}

/// A value is a null exactly if its text is.
pub proof fn law_nulls(value: &Value, r: bool)
    requires
        call_ensures(Value::is_null, (value,), r),
    ensures
        r <==> value@ == "null"@,
{
}

/// The numbers of bytes stand in an array in their order, with commas between: the numbers of two
/// rows are those of the first, a comma, and those of the second.
pub proof fn law_byte_arrays(bytes: &[u8], r: Value, a: Seq<u8>, b: Seq<u8>, one: u8)
    requires
        call_ensures(Value::byte_array, (bytes,), r),
    ensures
        r@ == "["@ + byte_numbers(bytes@) + "]"@,
        byte_numbers(Seq::empty()) == Seq::<char>::empty(),
        byte_numbers(seq![one]) == decimal(one as nat),
        a.len() > 0 && b.len() > 0 ==> byte_numbers(a + b) == byte_numbers(a) + ","@ + byte_numbers(b),
    decreases b.len(),
{
    if a.len() > 0 && b.len() > 0 {
        let all = a + b;
        let head = b.drop_last();
        assert(all.drop_last() =~= a + head);
        assert(all.last() == b.last());
        if b.len() == 1 {
            assert(a + head =~= a);
        } else {
            law_byte_arrays(bytes, r, a, head, one);
            assert(byte_numbers(all) =~= byte_numbers(a) + ","@ + byte_numbers(b));
        }
    }
}

/// The signal that a client has connected names the room and the client.
pub proof fn law_signals(room_id: u64, client_id: u64, r: KernelSignal)
    requires
        call_ensures(KernelSignal::ws_connected, (room_id, client_id), r),
    ensures
        r matches KernelSignal::Custom(text) && text@ == "ws_connected:"@ + decimal(room_id as nat)
            + ":"@ + decimal(client_id as nat),
{
}

/// A token is issued now, or right after the one before if that was later.
pub proof fn law_issue_times(now: u64, last: Option<u64>, r: u64)
    requires
        call_ensures(next_issue_time, (now, last), r),
    ensures
        last is None ==> r == now,
        last matches Some(t) ==> (t < u64::MAX ==> r == (if now > t {
            now as int
        } else {
            t + 1
        })),
        last == Some(u64::MAX) ==> r == u64::MAX,
{
}

// ---------------------------------------------------------------------------
// The lists of a room
// ---------------------------------------------------------------------------

/// A client that is added to a room is one of its clients, once; the others stay in their order.
/// One that is removed is gone. Buckets are not touched.
pub proof fn law_clients_of_a_room(
    added_to: &mut Room,
    client_id: String,
    removed_from: &mut Room,
    gone: &String,
)
    requires
        call_ensures(Room::add_client, (added_to, client_id), ()),
        call_ensures(Room::remove_client, (removed_from, gone), ()),
    ensures
        ({
            let before = old(added_to)@;
            let after = final(added_to)@;
            &&& after == crate::rooms::RoomView { client_ids: after.client_ids, ..before }
            &&& before.client_ids.contains(client_id@) ==> after.client_ids == before.client_ids
            &&& !before.client_ids.contains(client_id@) ==> after.client_ids
                == before.client_ids.push(client_id@)
        }),
        ({
            let before = old(removed_from)@;
            let after = final(removed_from)@;
            &&& after == crate::rooms::RoomView { client_ids: after.client_ids, ..before }
            &&& forall|c: Seq<char>| #[trigger]
                after.client_ids.contains(c) <==> before.client_ids.contains(c) && c != gone@
            &&& !before.client_ids.contains(gone@) ==> after.client_ids == before.client_ids
        }),
{
    lemma_without(old(removed_from)@.client_ids, gone@);
}

proof fn lemma_without(s: Seq<Seq<char>>, t: Seq<char>)
    ensures
        forall|c: Seq<char>| #[trigger]
            crate::rooms::without_text(s, t).contains(c) <==> s.contains(c) && c != t,
        !s.contains(t) ==> crate::rooms::without_text(s, t) == s,
    decreases s.len(),
{
    reveal(Seq::filter);
    if s.len() > 0 {
        let head = s.drop_last();
        let last = s.last();
        lemma_without(head, t);
        let before = crate::rooms::without_text(head, t);
        let after = crate::rooms::without_text(s, t);
        assert(after == if last != t {
            before.push(last)
        } else {
            before
        });
        assert forall|c: Seq<char>| s.contains(c) == (head.contains(c) || c == last) by {
            if head.contains(c) {
                let i = choose|i: int| 0 <= i < head.len() && head[i] == c;
                assert(s[i] == c);
            }
            if s.contains(c) {
                let i = choose|i: int| 0 <= i < s.len() && s[i] == c;
                if i < head.len() {
                    assert(head[i] == c);
                }
            }
            assert(s[s.len() - 1] == last);
        }
        assert forall|c: Seq<char>| #[trigger] after.contains(c) <==> s.contains(c) && c != t by {
            if before.contains(c) {
                let i = choose|i: int| 0 <= i < before.len() && before[i] == c;
                assert(after[i] == c);
            }
            if last != t {
                assert(after[before.len() as int] == last);
            }
            if after.contains(c) {
                let i = choose|i: int| 0 <= i < after.len() && after[i] == c;
                if i < before.len() {
                    assert(before[i] == c);
                }
            }
            assert(before.contains(c) <==> head.contains(c) && c != t);
        }
        if !s.contains(t) {
            assert(s[s.len() - 1] == last);
            assert(s =~= head.push(last));
        }
    }
}

/// A bucket that is added to a room is one of its buckets, once; one that is removed is gone. Only
/// a client of the room can subscribe to a bucket or end that.
pub proof fn law_buckets_of_a_room(
    added_to: &mut Room,
    removed_from: &mut Room,
    subscribed: &mut Room,
    unsubscribed: &mut Room,
    bucket: String,
    gone: &String,
    client: String,
    leaving: &String,
)
    requires
        call_ensures(Room::add_bucket, (added_to, bucket), ()),
        call_ensures(Room::remove_bucket, (removed_from, gone), ()),
        call_ensures(Room::subscribe_client_to_bucket, (subscribed, client, bucket), ()),
        call_ensures(Room::unsubscribe_client_from_bucket, (unsubscribed, leaving, gone), ()),
    ensures
        final(added_to)@ == (crate::rooms::RoomView {
            buckets: final(added_to)@.buckets,
            ..old(added_to)@
        }),
        final(added_to)@.buckets == (if old(added_to)@.buckets.contains(bucket@) {
            old(added_to)@.buckets
        } else {
            old(added_to)@.buckets.push(bucket@)
        }),
        final(removed_from)@ == (crate::rooms::RoomView {
            buckets: final(removed_from)@.buckets,
            ..old(removed_from)@
        }),
        forall|b: Seq<char>| #[trigger]
            final(removed_from)@.buckets.contains(b) <==> old(removed_from)@.buckets.contains(b) && b
                != gone@,
        !old(subscribed)@.client_ids.contains(client@) ==> final(subscribed)@ == old(subscribed)@,
        old(subscribed)@.client_ids.contains(client@) ==> final(subscribed)@ == (
        crate::rooms::RoomView {
            buckets: if old(subscribed)@.buckets.contains(bucket@) {
                old(subscribed)@.buckets
            } else {
                old(subscribed)@.buckets.push(bucket@)
            },
            ..old(subscribed)@
        }),
        !old(unsubscribed)@.client_ids.contains(leaving@) ==> final(unsubscribed)@ == old(
            unsubscribed,
        )@,
        old(unsubscribed)@.client_ids.contains(leaving@) ==> {
            &&& final(unsubscribed)@ == (crate::rooms::RoomView {
                buckets: final(unsubscribed)@.buckets,
                ..old(unsubscribed)@
            })
            &&& forall|b: Seq<char>| #[trigger]
                final(unsubscribed)@.buckets.contains(b) <==> old(unsubscribed)@.buckets.contains(b)
                    && b != gone@
        },
{
    lemma_without(old(removed_from)@.buckets, gone@);
    lemma_without(old(unsubscribed)@.buckets, gone@);
}

/// A new room has its name and nothing else; flags are the bits that they were made of.
pub proof fn law_new_lists(
    name: String,
    room: Room,
    none: FragmentFlags,
    bits: u16,
    flags: FragmentFlags,
    of: &FragmentFlags,
    read: u16,
)
    requires
        call_ensures(Room::new, (name,), room),
        call_ensures(FragmentFlags::new, (), none),
        call_ensures(FragmentFlags::from_bits, (bits,), flags),
        call_ensures(FragmentFlags::bits, (of,), read),
    ensures
        room@.display_name == name@,
        room@.id == 0,
        room@.client_ids.len() == 0,
        room@.buckets.len() == 0,
        room@.fragments.len() == 0,
        room@.next_bucket_id == 0,
        room@.room_version == 0,
        none@ == 0,
        flags@ == bits,
        read == of@,
{
}

/// A room knows the identities that were added to it and not removed since, each by its identifier;
/// the subject of a token is known exactly if there is such an identity.
pub proof fn law_identities(
    empty: RoomPermissions,
    added_to: &mut RoomPermissions,
    identity: RoomClientIdentity,
    removed_from: &mut RoomPermissions,
    gone: &str,
    known: &RoomPermissions,
    id: &str,
    found: Option<&RoomClientIdentity>,
    jwt: &ClientJwt,
    verified: bool,
)
    requires
        call_ensures(RoomPermissions::new, (), empty),
        call_ensures(RoomPermissions::add_identity, (added_to, identity), ()),
        call_ensures(RoomPermissions::remove_identity, (removed_from, gone), ()),
        call_ensures(RoomPermissions::get_identity, (known, id), found),
        call_ensures(RoomPermissions::verify_jwt, (known, jwt), verified),
    ensures
        forall|c: Seq<char>| !#[trigger] empty@.contains_key(c),
        final(added_to)@.contains_key(identity.id@),
        final(added_to)@[identity.id@] == identity@,
        forall|c: Seq<char>|
            c != identity.id@ ==> (#[trigger] final(added_to)@.contains_key(c) <==> old(
                added_to,
            )@.contains_key(c)) && (old(added_to)@.contains_key(c) ==> final(added_to)@[c] == old(
                added_to,
            )@[c]),
        forall|c: Seq<char>| #[trigger]
            final(removed_from)@.contains_key(c) <==> old(removed_from)@.contains_key(c) && c != gone@,
        forall|c: Seq<char>| #[trigger]
            final(removed_from)@.contains_key(c) ==> final(removed_from)@[c] == old(removed_from)@[c],
        found is Some <==> known@.contains_key(id@),
        found matches Some(identity) ==> identity@ == known@[id@],
        verified <==> known@.contains_key(jwt.sub@),
{
}

// ---------------------------------------------------------------------------
// Settings
// ---------------------------------------------------------------------------

/// Settings are good exactly if they have a key for callers and a directory, neither blank, and do
/// not ask for TLS. The server then begins without rooms, with the keys and names that were set and
/// with tokens for an hour if nothing else was set, on the usual addresses if no others were set.
pub proof fn law_settings(
    config: SyncpondConfig,
    r: Result<(AppState, Settings), ConfigError>,
)
    requires
        call_ensures(configure, (config,), r),
    ensures
        ({
            let key_set = trim(config.command_api_key@).len() > 0;
            let dir_set = config.save_dir is Some && trim(config.save_dir->0@).len() > 0;
            let tls = config.require_tls == Some(true);
            &&& r is Ok <==> key_set && dir_set && !tls
            &&& !key_set ==> (r matches Err(e) && e == ConfigError::CommandApiKeyMissing)
            &&& key_set && !dir_set ==> (r matches Err(e) && e == ConfigError::SaveDirMissing)
            &&& key_set && dir_set && tls ==> (r matches Err(e) && e == ConfigError::TlsRequired)
        }),
        r matches Ok((state, settings)) ==> {
            &&& state@.rooms.dom() == Set::<u64>::empty()
            &&& state@.labels.dom() == Set::<Seq<char>>::empty()
            &&& state@.next_room_id == 1
            &&& state@.command_api_key == Some(config.command_api_key@)
            &&& config.jwt_key matches Some(key) ==> state@.jwt_key == Some(key@)
            &&& config.jwt_key is None ==> state@.jwt_key is None
            &&& config.jwt_issuer matches Some(issuer) ==> state@.jwt_issuer == Some(issuer@)
            &&& config.jwt_issuer is None ==> state@.jwt_issuer is None
            &&& config.jwt_audience matches Some(audience) ==> state@.jwt_audience == Some(audience@)
            &&& config.jwt_audience is None ==> state@.jwt_audience is None
            &&& config.jwt_ttl_seconds matches Some(seconds) ==> state@.jwt_ttl_seconds == seconds
            &&& config.jwt_ttl_seconds is None ==> state@.jwt_ttl_seconds == 3600
            &&& config.ws_addr matches Some(addr) ==> settings.ws_addr@ == addr@
            &&& config.ws_addr is None ==> settings.ws_addr@ == "127.0.0.1:8080"@
            &&& config.upstream_grpc_addr matches Some(addr) ==> settings.grpc_addr@ == addr@
            &&& config.upstream_grpc_addr is None ==> settings.grpc_addr@ == "127.0.0.1:50051"@
            &&& config.ws_allowed_origins matches Some(origins) ==> settings.ws_allowed_origins@
                == origins@
            &&& config.ws_allowed_origins is None ==> settings.ws_allowed_origins@.len() == 0
            &&& settings.save_dir@ == config.save_dir->0@
        },
{
    if let Ok((state, settings)) = r {
        assert(state@.rooms.dom() =~= Set::<u64>::empty());
        assert(state@.labels.dom() =~= Set::<Seq<char>>::empty());
    }
}

// ---------------------------------------------------------------------------
// Rooms on disk
// ---------------------------------------------------------------------------

/// A room that is made known is there, but not in memory, and no new room gets its number. Other
/// rooms and the labels stay.
pub proof fn law_registered_rooms_wait(state: &mut AppState, room_id: u64)
    requires
        call_ensures(register_room, (state, room_id), ()),
        room_id < u64::MAX,
    ensures
        ({
            let before = old(state)@;
            let after = final(state)@;
            &&& after == AppView {
                rooms: after.rooms,
                next_room_id: after.next_room_id,
                ..before
            }
            &&& after.rooms.dom() == before.rooms.dom().insert(room_id)
            &&& forall|other: u64|
                other != room_id && before.rooms.contains_key(other) ==> #[trigger] after.rooms[other]
                    == before.rooms[other]
            &&& !after.rooms[room_id].loaded
            &&& forall|b: u64| !#[trigger] after.rooms[room_id].buckets.contains_key(b)
            &&& after.rooms[room_id].room_counter == 0
            &&& after.next_room_id > room_id
            &&& after.next_room_id >= before.next_room_id
            &&& after.next_room_id == before.next_room_id || after.next_room_id == room_id + 1
        }),
{
    assert(final(state)@.rooms.dom() =~= old(state)@.rooms.dom().insert(room_id));
}

/// A room that is loaded holds exactly what was kept of it; one that is not there cannot be loaded.
/// Other rooms and the labels stay.
pub proof fn law_loaded_rooms_hold_what_was_kept(
    state: &mut AppState,
    room_id: u64,
    stored: StoredRoom,
    r: Result<(), StateError>,
)
    requires
        call_ensures(
            load_room,
            (state, room_id, &stored.records, stored.members, stored.fragments),
            r,
        ),
    ensures
        r is Ok <==> old(state)@.rooms.contains_key(room_id),
        r is Err ==> r == Err::<(), StateError>(StateError::RoomNotFound) && final(state)@ == old(
            state,
        )@,
        r is Ok ==> same_elsewhere(old(state)@, final(state)@, room_id) && room_filled(
            old(state)@.rooms[room_id],
            final(state)@.rooms[room_id],
            stored,
        ),
{
    crate::kernel_calls::lemma_places(stored.fragments@);
}

/// A room that is unloaded holds nothing in memory any more; one that is not there cannot be
/// unloaded. Other rooms and the labels stay.
pub proof fn law_unloaded_rooms_hold_nothing(
    state: &mut AppState,
    room_id: u64,
    r: Result<(), StateError>,
)
    requires
        call_ensures(unload_room, (state, room_id), r),
    ensures
        r is Ok <==> old(state)@.rooms.contains_key(room_id),
        r is Err ==> r == Err::<(), StateError>(StateError::RoomNotFound) && final(state)@ == old(
            state,
        )@,
        r is Ok ==> same_elsewhere(old(state)@, final(state)@, room_id) && room_emptied(
            old(state)@.rooms[room_id],
            final(state)@.rooms[room_id],
        ),
{
}

/// Putting the buckets of records into a room changes no entry: buckets that are there keep what is
/// in them. Each bucket with a record has its flags, and its label if the record has one.
pub proof fn law_restored_buckets(room: &mut RoomState, records: &IdMap<BucketRecord>)
    requires
        call_ensures(restore_buckets, (room, records), ()),
    ensures
        ({
            let before = old(room)@;
            let after = final(room)@;
            &&& forall|b: u64, k: Seq<char>| #[trigger] after.holds(b, k) <==> before.holds(b, k)
            &&& forall|b: u64, k: Seq<char>| #[trigger]
                after.holds(b, k) ==> after.buckets[b][k] == before.buckets[b][k]
            &&& forall|b: u64| #[trigger]
                after.buckets.contains_key(b) <==> before.buckets.contains_key(b)
                    || records@.contains_key(b)
            &&& forall|b: u64|
                records@.contains_key(b) ==> after.bucket_flags.contains_key(b)
                    && #[trigger] after.bucket_flags[b] == records@[b].flags
            &&& forall|b: u64|
                !records@.contains_key(b) ==> (#[trigger] after.bucket_flags.contains_key(b)
                    <==> before.bucket_flags.contains_key(b)) && (before.bucket_flags.contains_key(b)
                    ==> after.bucket_flags[b] == before.bucket_flags[b])
            &&& forall|b: u64|
                records@.contains_key(b) && records@[b].label is Some
                    ==> after.bucket_labels.contains_key(b) && Some(
                    #[trigger] after.bucket_labels[b],
                ) == records@[b].label
            &&& forall|b: u64|
                !(records@.contains_key(b) && records@[b].label is Some) ==> (
                #[trigger] after.bucket_labels.contains_key(b) <==> before.bucket_labels.contains_key(
                    b,
                )) && (before.bucket_labels.contains_key(b) ==> after.bucket_labels[b]
                    == before.bucket_labels[b])
            &&& after.room_counter == before.room_counter
            &&& after.tx_buffer == before.tx_buffer
            &&& after.members == before.members
            &&& after.loaded == before.loaded
        }),
{
}

// ---------------------------------------------------------------------------
// Texts of errors
// ---------------------------------------------------------------------------

/// Each error of the state with numbered buckets has its text.
pub proof fn law_error_texts(e: &StateError, r: String)
    requires
        call_ensures(StateError::to_text, (e,), r),
    ensures
        r@ == (match *e {
            StateError::RoomNotFound => "room_not_found"@,
            StateError::RoomNotLoaded => "room_not_loaded"@,
            StateError::BucketNotFound => "bucket_not_found"@,
            StateError::FragmentNotFound => "not_found"@,
            StateError::FragmentTombstone => "tombstone"@,
            StateError::TxNotOpen => "tx_not_open"@,
            StateError::TxAlreadyOpen => "tx_already_open"@,
            StateError::JwtKeyNotConfigured => "jwt_key_not_configured"@,
            StateError::JwtIssuerAudienceNotConfigured => "jwt_issuer_audience_not_configured"@,
            StateError::JwtKeyTooShort => "jwt_key_too_short"@,
            StateError::ReservedBucketId => "reserved_bucket_id"@,
            StateError::InvalidMember => "invalid_member"@,
            StateError::CommandApiKeyInvalid => "command_api_key_invalid"@,
            StateError::LabelNotFound => "label_not_found"@,
            StateError::LabelInUse => "label_in_use"@,
            StateError::LabelInvalid => "label_invalid"@,
        }),
{
}

/// Each error of the state with named containers has its text.
pub proof fn law_container_error_texts(e: &crate::state::StateError, r: String)
    requires
        call_ensures(crate::state::StateError::to_text, (e,), r),
    ensures
        r@ == (match *e {
            crate::state::StateError::RoomNotFound => "room_not_found"@,
            crate::state::StateError::ContainerNotFound => "container_not_found"@,
            crate::state::StateError::FragmentNotFound => "not_found"@,
            crate::state::StateError::FragmentTombstone => "tombstone"@,
            crate::state::StateError::TxNotOpen => "tx_not_open"@,
            crate::state::StateError::TxAlreadyOpen => "tx_already_open"@,
            crate::state::StateError::JwtKeyNotConfigured => "jwt_key_not_configured"@,
            crate::state::StateError::JwtIssuerAudienceNotConfigured =>
                "jwt_issuer_audience_not_configured"@,
            crate::state::StateError::JwtKeyTooShort => "jwt_key_too_short"@,
            crate::state::StateError::CommandApiKeyInvalid => "command_api_key_invalid"@,
            crate::state::StateError::LabelNotFound => "label_not_found"@,
            crate::state::StateError::LabelInUse => "label_in_use"@,
            crate::state::StateError::LabelInvalid => "label_invalid"@,
            crate::state::StateError::RoomIoBusy => "room_io_busy"@,
        }),
{
}

/// Each fault of the settings has its text.
pub proof fn law_config_error_texts(e: &ConfigError, r: String)
    requires
        call_ensures(ConfigError::to_text, (e,), r),
    ensures
        r@ == (match *e {
            ConfigError::CommandApiKeyMissing =>
                "command_api_key must be configured and non-empty"@,
            ConfigError::SaveDirMissing => "save_dir must be configured and non-empty"@,
            ConfigError::TlsRequired =>
                "TLS transport required in config, but this binary does not terminate TLS; use reverse proxy for TLS termination"@,
        }),
{
}

// ---------------------------------------------------------------------------
// Beginnings and copies
// ---------------------------------------------------------------------------

/// A limiter and a hub begin with nothing, and a kernel with the state that it is given; a service
/// hands its kernel back as it is.
pub proof fn law_beginnings(
    limiter: RateLimiter,
    hub: crate::room_hub::WsHub,
    state: AppState,
    kernel: SyncpondKernel,
    service: CommandServer,
    inner: SyncpondKernel,
)
    requires
        call_ensures(RateLimiter::new, (), limiter),
        call_ensures(crate::room_hub::WsHub::new, (), hub),
        call_ensures(SyncpondKernel::new, (state,), kernel),
        call_ensures(CommandServer::into_inner, (service,), inner),
    ensures
        forall|key: Seq<char>| !#[trigger] limiter@.contains_key(key),
        forall|id: u64| !#[trigger] hub@.contains_key(id),
        kernel.state@ == state@,
        inner.state@ == service@.state,
{
}

/// A copy of records has the same records, and the characters of a string are the string's.
pub proof fn law_copies(
    records: &IdMap<BucketRecord>,
    copy: IdMap<BucketRecord>,
    s: &str,
    chars: Vec<char>,
    value: &Value,
    text: &str,
    content: &str,
    literal: Value,
)
    requires
        call_ensures(copy_records, (records,), copy),
        call_ensures(chars_of, (s,), chars),
        call_ensures(Value::text, (value,), text),
        call_ensures(Value::string, (content,), literal),
    ensures
        forall|b: u64| #[trigger] copy@.contains_key(b) <==> records@.contains_key(b),
        forall|b: u64| #[trigger] copy@.contains_key(b) ==> copy@[b] == records@[b],
        chars@.len() == s@.len(),
        forall|i: int| 0 <= i < s@.len() ==> #[trigger] chars@[i] == s@[i],
        text@ == value@,
        literal@ == json_string(content@),
{
}

/// An operation can be submitted to a room with a transaction open, or with a version left; what a
/// websocket client sends is acknowledged.
pub proof fn law_submitting(
    room: &RoomState,
    r: bool,
    kernel: &SyncpondKernel,
    room_id: u64,
    msg: &[u8],
    ack: CommandResponse,
)
    requires
        call_ensures(RoomState::has_version_left, (room,), r),
        call_ensures(SyncpondKernel::handle_ws_message, (kernel, room_id, msg), ack),
    ensures
        r <==> room@.tx_buffer is Some || room@.room_counter < u64::MAX,
        ack is WsMessageAck,
{
}

/// A value completes a command that takes one; what the JSON parser says is wrong refuses it.
pub proof fn law_values_complete_commands(
    room_id: u64,
    args: Vec<String>,
    value: Result<Value, String>,
    r: Result<Command, String>,
    key: Vec<String>,
    s: Result<Command, String>,
)
    requires
        call_ensures(with_value, (Verb::SetValue, room_id, args, value), r),
        args@.len() == 2,
        call_ensures(with_value, (Verb::ServerSet, room_id, key, value), s),
        key@.len() == 1,
    ensures
        match value {
            Ok(v) => {
                &&& r matches Ok(Command::SetValue { room_id: of, container, key, value: given })
                &&& of == room_id
                &&& container@ == args@[0]@
                &&& key@ == args@[1]@
                &&& given@ == v@
            },
            Err(e) => r matches Err(text) && text@ == "ERROR invalid_json "@ + e@,
        },
        match value {
            Ok(v) => {
                &&& s matches Ok(Command::ServerSet { room_id: of, key: name, value: given })
                &&& of == room_id
                &&& name@ == key@[0]@
                &&& given@ == v@
            },
            Err(e) => s matches Err(text) && text@ == "ERROR invalid_json "@ + e@,
        },
{
    if let (Ok(v), Ok(a), Ok(b)) = (value, r, s) {
        crate::protocol::law_command_shaped(a);
        assert(a@.args[0] == args@[0]@ && a@.args[1] == args@[1]@);
        assert(b@.args[0] == key@[0]@);
    }
}

} // verus!
