//! Rooms as lists of clients and buckets, and the flags of fragments.

use crate::collections::texts;
use crate::state::holds_text;
use crate::text::same;
use vstd::prelude::*;
use vstd::string::*;

verus! {

/// The flags of a fragment, one per bit.
#[derive(Debug, Clone, Copy)]
pub struct FragmentFlags(u16);

impl View for FragmentFlags {
    type V = u16;

    closed spec fn view(&self) -> u16 {
        self.0
    }
}

impl FragmentFlags {
    /// The fragment is kept on disk.
    pub const PERSISTENT: u16 = 1;

    /// No flags.
    pub fn new() -> (r: FragmentFlags)
        ensures
            r@ == 0,
    {
        FragmentFlags(0)
    }

    /// The flags with the given bits.
    pub fn from_bits(bits: u16) -> (r: FragmentFlags)
        ensures
            r@ == bits,
    {
        FragmentFlags(bits)
    }

    /// The bits of the flags.
    pub fn bits(&self) -> (r: u16)
        ensures
            r == self@,
    {
        self.0
    }
}

/// A collection of synchronized data within a room, which decides who gets what.
pub struct Bucket {
    pub id: u64,
    pub display_name: String,
    /// The clients that get updates of this bucket.
    pub client_ids: Vec<String>,
    pub bucket_version: u64,
    pub fragment_ids: Vec<u64>,
}

/// A piece of raw data in a bucket.
pub struct Fragment {
    pub id: u64,
    pub data: Vec<u8>,
    pub bucket_id: u64,
    pub fragment_version: u64,
    pub flags: FragmentFlags,
}

/// A room: its clients and the names of its buckets.
pub struct Room {
    pub id: u64,
    pub display_name: String,
    pub client_ids: Vec<String>,
    pub buckets: Vec<String>,
    pub fragments: Vec<Fragment>,
    /// The identifier of the next bucket.
    pub next_bucket_id: u64,
    pub room_version: u64,
}

/// What the operations on a room work on: the clients and the names of the buckets.
#[verifier::ext_equal]
pub ghost struct RoomView {
    pub id: u64,
    pub display_name: Seq<char>,
    pub client_ids: Seq<Seq<char>>,
    pub buckets: Seq<Seq<char>>,
    pub fragments: Seq<Fragment>,
    pub next_bucket_id: u64,
    pub room_version: u64,
}

impl View for Room {
    type V = RoomView;

    open spec fn view(&self) -> RoomView {
        RoomView {
            id: self.id,
            display_name: self.display_name@,
            client_ids: texts(self.client_ids@),
            buckets: texts(self.buckets@),
            fragments: self.fragments@,
            next_bucket_id: self.next_bucket_id,
            room_version: self.room_version,
        }
    }
}

/// A row with a text at its end, unless it is there already.
pub open spec fn with_text(s: Seq<Seq<char>>, t: Seq<char>) -> Seq<Seq<char>> {
    if s.contains(t) {
        s
    } else {
        s.push(t)
    }
}

/// A row without a text.
pub open spec fn without_text(s: Seq<Seq<char>>, t: Seq<char>) -> Seq<Seq<char>> {
    s.filter(|x: Seq<char>| x != t)
}

fn remove_text(v: &Vec<String>, t: &str) -> (r: Vec<String>)
    ensures
        texts(r@) == without_text(texts(v@), t@),
{
    let mut out: Vec<String> = Vec::new();
    let ghost all = texts(v@);
    let ghost keep = |x: Seq<char>| x != t@;
    let mut i: usize = 0;
    proof {
        reveal(Seq::filter);
    }
    assert(texts(out@) =~= all.take(0).filter(keep));
    while i < v.len()
        invariant
            i <= v@.len(),
            all == texts(v@),
            keep == (|x: Seq<char>| x != t@),
            texts(out@) == all.take(i as int).filter(keep),
        decreases v@.len() - i,
    {
        proof {
            reveal(Seq::filter);
            let next = all.take(i + 1);
            assert(next.drop_last() =~= all.take(i as int));
            assert(next.last() == v@[i as int]@);
        }
        if !same(v[i].as_str(), t) {
            let ghost before = out@;
            out.push(v[i].clone());
            assert(texts(out@) =~= texts(before).push(v@[i as int]@));
        }
        i = i + 1;
    }
    assert(all.take(i as int) =~= all);
    out
}

impl Room {
    /// An empty room.
    pub fn new(display_name: String) -> (r: Room)
        ensures
            r@ == (RoomView {
                id: 0,
                display_name: display_name@,
                client_ids: Seq::empty(),
                buckets: Seq::empty(),
                fragments: Seq::empty(),
                next_bucket_id: 0,
                room_version: 0,
            }),
    {
        Room {
            id: 0,
            display_name,
            client_ids: Vec::new(),
            buckets: Vec::new(),
            fragments: Vec::new(),
            next_bucket_id: 0,
            room_version: 0,
        }
    }

    /// Makes a client a member of the room.
    pub fn add_client(&mut self, client_id: String)
        ensures
            final(self)@ == (RoomView {
                client_ids: with_text(old(self)@.client_ids, client_id@),
                ..old(self)@
            }),
    {
        if !holds_text(&self.client_ids, client_id.as_str()) {
            let ghost text = client_id@;
            self.client_ids.push(client_id);
            assert(self@.client_ids =~= old(self)@.client_ids.push(text));
        }
    }

    /// Takes a client out of the room.
    pub fn remove_client(&mut self, client_id: &String)
        ensures
            final(self)@ == (RoomView {
                client_ids: without_text(old(self)@.client_ids, client_id@),
                ..old(self)@
            }),
    {
        let kept: Vec<String> = remove_text(&self.client_ids, client_id.as_str());
        self.client_ids = kept;
    }

    /// Adds a bucket to the room.
    pub fn add_bucket(&mut self, bucket_name: String)
        ensures
            final(self)@ == (RoomView {
                buckets: with_text(old(self)@.buckets, bucket_name@),
                ..old(self)@
            }),
    {
        if !holds_text(&self.buckets, bucket_name.as_str()) {
            let ghost text = bucket_name@;
            self.buckets.push(bucket_name);
            assert(self@.buckets =~= old(self)@.buckets.push(text));
        }
    }

    /// Takes a bucket out of the room.
    pub fn remove_bucket(&mut self, bucket_name: &String)
        ensures
            final(self)@ == (RoomView {
                buckets: without_text(old(self)@.buckets, bucket_name@),
                ..old(self)@
            }),
    {
        let kept: Vec<String> = remove_text(&self.buckets, bucket_name.as_str());
        self.buckets = kept;
    }

    /// Subscribes a client to a bucket. Only members of the room can.
    pub fn subscribe_client_to_bucket(&mut self, client_id: String, bucket_name: String)
        ensures
            final(self)@ == (if old(self)@.client_ids.contains(client_id@) {
                RoomView {
                    buckets: with_text(old(self)@.buckets, bucket_name@),
                    ..old(self)@
                }
            } else {
                old(self)@
            }),
    {
        if !holds_text(&self.client_ids, client_id.as_str()) {
            return ;
        }
        self.add_bucket(bucket_name);
    }

    /// Ends the subscription of a client to a bucket. Only members of the room can.
    pub fn unsubscribe_client_from_bucket(&mut self, client_id: &String, bucket_name: &String)
        ensures
            final(self)@ == (if old(self)@.client_ids.contains(client_id@) {
                RoomView {
                    buckets: without_text(old(self)@.buckets, bucket_name@),
                    ..old(self)@
                }
            } else {
                old(self)@
            }),
    {
        if !holds_text(&self.client_ids, client_id.as_str()) {
            return ;
        }
        self.remove_bucket(bucket_name);
    }
}

} // verus!
