//! Maps and sets keyed by identifiers and by text. Their models are
//! mathematical maps and sets of the models of what they hold.

use crate::text::{comes_before, lemma_precedes_total, lemma_precedes_transitive, precedes, same};
use std::collections::{HashMap, HashSet};
use vstd::prelude::*;
use vstd::std_specs::iter::IteratorSpec;
use vstd::string::*;

verus! {

broadcast use vstd::std_specs::hash::group_hash_axioms;

// ---------------------------------------------------------------------------
// Prefixes
// ---------------------------------------------------------------------------

/// A prefix of a row with one more: it holds what it held before, and that one.
pub proof fn lemma_take_one_more<T>(all: Seq<T>, i: int)
    requires
        0 <= i < all.len(),
    ensures
        all.take(i + 1) == all.take(i).push(all[i]),
        all.take(i + 1).to_set() == all.take(i).to_set().insert(all[i]),
        forall|x: T| #[trigger]
            all.take(i + 1).contains(x) <==> all.take(i).contains(x) || x == all[i],
        all.no_duplicates() ==> !all.take(i).contains(all[i]),
{
    let before = all.take(i);
    let now = all.take(i + 1);
    assert(now =~= before.push(all[i]));
    assert forall|x: T| #[trigger] now.contains(x) <==> before.contains(x) || x == all[i] by {
        if before.contains(x) {
            let k = choose|k: int| 0 <= k < before.len() && before[k] == x;
            assert(now[k] == x);
        }
        if now.contains(x) {
            let k = choose|k: int| 0 <= k < now.len() && now[k] == x;
            if k < i {
                assert(before[k] == x);
            }
        }
        assert(now[i] == all[i]);
    }
    assert forall|x: T| now.to_set().contains(x) == before.to_set().insert(all[i]).contains(x) by {
        assert(now.contains(x) <==> before.contains(x) || x == all[i]);
    }
    assert(now.to_set() =~= before.to_set().insert(all[i]));
    if before.contains(all[i]) {
        let k = choose|k: int| 0 <= k < before.len() && before[k] == all[i];
        assert(all[k] == all[i]);
    }
}

// ---------------------------------------------------------------------------
// Sorting
// ---------------------------------------------------------------------------

/// Strictly increasing.
pub open spec fn ascending(s: Seq<u64>) -> bool {
    forall|i: int, j: int| 0 <= i < j < s.len() ==> s[i] < s[j]
}

/// Strictly increasing in the order of texts.
pub open spec fn ascending_texts(s: Seq<Seq<char>>) -> bool {
    forall|i: int, j: int| 0 <= i < j < s.len() ==> precedes(#[trigger] s[i], #[trigger] s[j])
}

/// Puts a number that is not there yet into its place.
fn insert_sorted(out: &mut Vec<u64>, n: u64)
    requires
        ascending(old(out)@),
        !old(out)@.contains(n),
    ensures
        ascending(final(out)@),
        final(out)@.to_set() == old(out)@.to_set().insert(n),
        final(out)@.len() == old(out)@.len() + 1,
{
    let mut i: usize = 0;
    while i < out.len() && out[i] < n
        invariant
            i <= out@.len(),
            out@ == old(out)@,
            forall|k: int| 0 <= k < i ==> out@[k] < n,
        decreases out@.len() - i,
    {
        i = i + 1;
    }
    let ghost before = out@;
    proof {
        if i < out@.len() {
            assert(before.contains(before[i as int]));
        }
    }
    out.insert(i, n);
    proof {
        let after = out@;
        assert forall|x: u64| after.to_set().contains(x) == before.to_set().insert(n).contains(x) by {
            if before.contains(x) {
                let k = choose|k: int| 0 <= k < before.len() && before[k] == x;
                assert(after[if k < i { k } else { k + 1 }] == x);
            }
            if x == n {
                assert(after[i as int] == n);
            }
            if after.contains(x) {
                let k = choose|k: int| 0 <= k < after.len() && after[k] == x;
                if k < i {
                    assert(before[k] == x);
                } else if k > i {
                    assert(before[k - 1] == x);
                }
            }
        }
        assert(after.to_set() =~= before.to_set().insert(n));
    }
}

/// The members of a set of identifiers in ascending order.
pub fn sorted_ids(set: &HashSet<u64>) -> (r: Vec<u64>)
    ensures
        ascending(r@),
        r@.to_set() == set@,
        r@.len() == set@.len(),
        set@.finite(),
{
    let mut out: Vec<u64> = Vec::new();
    assert(out@.to_set() =~= Set::<u64>::empty());
    for key in it: set.iter()
        invariant
            ascending(out@),
            out@.len() == it.index(),
            it.seq() == vstd::std_specs::hash::spec_hash_keys_iter(set).remaining(),
            it.seq().no_duplicates(),
            it.seq().len() == set@.len(),
            forall|x: u64|
                out@.to_set().contains(x) <==> exists|k: int|
                    0 <= k < it.index() && *#[trigger] it.seq()[k] == x,
            it.seq().unref().to_set() == set@,
    {
        proof {
            let seq = it.seq();
            let n = it.index();
            assert(*seq[n] == *key);
            if out@.contains(*key) {
                assert(out@.to_set().contains(*key));
                let k = choose|k: int| 0 <= k < n && *#[trigger] seq[k] == *key;
                assert(seq[k] == seq[n]);
            }
        }
        let ghost before = out@.to_set();
        insert_sorted(&mut out, *key);
        proof {
            let seq = it.seq();
            let n = it.index();
            assert forall|x: u64|
                out@.to_set().contains(x) <==> exists|k: int|
                    0 <= k < n + 1 && *#[trigger] seq[k] == x by {
                if out@.to_set().contains(x) {
                    if x == *key {
                        assert(*seq[n] == x);
                    } else {
                        assert(before.contains(x));
                    }
                }
                if exists|k: int| 0 <= k < n + 1 && *#[trigger] seq[k] == x {
                    let k = choose|k: int| 0 <= k < n + 1 && *#[trigger] seq[k] == x;
                    if k < n {
                        assert(before.contains(x));
                    }
                }
            }
        }
    }
    proof {
        let seq = vstd::std_specs::hash::spec_hash_keys_iter(set).remaining();
        assert forall|x: u64| out@.to_set().contains(x) == set@.contains(x) by {
            assert(seq.unref().to_set().contains(x) == set@.contains(x));
            if set@.contains(x) {
                let k = choose|k: int| 0 <= k < seq.unref().len() && seq.unref()[k] == x;
                assert(*seq[k] == x);
            }
            if out@.to_set().contains(x) {
                let k = choose|k: int| 0 <= k < seq.len() && *#[trigger] seq[k] == x;
                assert(seq.unref()[k] == x);
            }
        }
        assert(out@.to_set() =~= set@);
        vstd::seq_lib::seq_to_set_is_finite(out@);
    }
    out
}

// ---------------------------------------------------------------------------
// Maps keyed by identifiers
// ---------------------------------------------------------------------------

/// A map from identifiers.
#[derive(Debug)]
pub struct IdMap<T> {
    map: HashMap<u64, T>,
}

impl<T: View> View for IdMap<T> {
    type V = Map<u64, T::V>;

    closed spec fn view(&self) -> Map<u64, T::V> {
        self.map@.map_values(|v: T| v@)
    }
}

impl<T: View> IdMap<T> {
    pub fn new() -> (r: Self)
        ensures
            r@ == Map::<u64, T::V>::empty(),
    {
        let r = IdMap { map: HashMap::new() };
        assert(r@ =~= Map::<u64, T::V>::empty());
        r
    }

    pub fn len(&self) -> (r: usize)
        ensures
            r == self@.dom().len(),
            self@.dom().finite(),
    {
        assert(self@.dom() =~= self.map@.dom());
        self.map.len()
    }

    pub fn contains(&self, key: u64) -> (r: bool)
        ensures
            r == self@.contains_key(key),
    {
        self.map.contains_key(&key)
    }

    pub fn get(&self, key: u64) -> (r: Option<&T>)
        ensures
            match r {
                Some(v) => self@.contains_key(key) && v@ == self@[key],
                None => !self@.contains_key(key),
            },
    {
        self.map.get(&key)
    }

    pub fn insert(&mut self, key: u64, value: T)
        ensures
            final(self)@ == old(self)@.insert(key, value@),
    {
        self.map.insert(key, value);
        assert(self@ =~= old(self)@.insert(key, value@));
    }

    pub fn remove(&mut self, key: u64) -> (r: Option<T>)
        ensures
            final(self)@ == old(self)@.remove(key),
            match r {
                Some(v) => old(self)@.contains_key(key) && v@ == old(self)@[key],
                None => !old(self)@.contains_key(key),
            },
    {
        let r = self.map.remove(&key);
        assert(self@ =~= old(self)@.remove(key));
        r
    }

    /// The keys in ascending order.
    pub fn keys(&self) -> (r: Vec<u64>)
        ensures
            ascending(r@),
            r@.to_set() == self@.dom(),
            r@.len() == self@.dom().len(),
            self@.dom().finite(),
    {
        let mut out: Vec<u64> = Vec::new();
        assert(self@.dom() =~= self.map@.dom());
        assert(out@.to_set() =~= Set::<u64>::empty());
        for key in it: self.map.keys()
            invariant
                ascending(out@),
                out@.len() == it.index(),
                it.seq() == vstd::std_specs::hash::spec_keys_iter(&self.map).remaining(),
                it.seq().no_duplicates(),
                it.seq().len() == self.map@.dom().len(),
                forall|x: u64|
                    out@.to_set().contains(x) <==> exists|k: int|
                        0 <= k < it.index() && *#[trigger] it.seq()[k] == x,
                it.seq().unref().to_set() == self.map@.dom(),
        {
            proof {
                let seq = it.seq();
                let n = it.index();
                assert(*seq[n] == *key);
                if out@.contains(*key) {
                    assert(out@.to_set().contains(*key));
                    let k = choose|k: int| 0 <= k < n && *#[trigger] seq[k] == *key;
                    assert(seq[k] == seq[n]);
                }
            }
            let ghost before = out@.to_set();
            insert_sorted(&mut out, *key);
            proof {
                let seq = it.seq();
                let n = it.index();
                assert forall|x: u64|
                    out@.to_set().contains(x) <==> exists|k: int|
                        0 <= k < n + 1 && *#[trigger] seq[k] == x by {
                    if out@.to_set().contains(x) {
                        if x == *key {
                            assert(*seq[n] == x);
                        } else {
                            assert(before.contains(x));
                        }
                    }
                    if exists|k: int| 0 <= k < n + 1 && *#[trigger] seq[k] == x {
                        let k = choose|k: int| 0 <= k < n + 1 && *#[trigger] seq[k] == x;
                        if k < n {
                            assert(before.contains(x));
                        }
                    }
                }
            }
        }
        proof {
            let seq = vstd::std_specs::hash::spec_keys_iter(&self.map).remaining();
            assert forall|x: u64| out@.to_set().contains(x) == self.map@.dom().contains(x) by {
                assert(seq.unref().to_set().contains(x) == self.map@.dom().contains(x));
                if self.map@.dom().contains(x) {
                    let k = choose|k: int| 0 <= k < seq.unref().len() && seq.unref()[k] == x;
                    assert(*seq[k] == x);
                }
                if out@.to_set().contains(x) {
                    let k = choose|k: int| 0 <= k < seq.len() && *#[trigger] seq[k] == x;
                    assert(seq.unref()[k] == x);
                }
            }
            assert(out@.to_set() =~= self.map@.dom());
        }
        out
    }
}

// ---------------------------------------------------------------------------
// Maps keyed by text
// ---------------------------------------------------------------------------

/// A map from texts. The entries stand in the order in which their keys came.
#[derive(Debug)]
pub struct StrMap<T> {
    entries: Vec<(String, T)>,
}

spec fn has_entry<T>(entries: Seq<(String, T)>, key: Seq<char>) -> bool {
    exists|i: int| 0 <= i < entries.len() && #[trigger] entries[i].0@ == key
}

spec fn entry_index<T>(entries: Seq<(String, T)>, key: Seq<char>) -> int {
    choose|i: int| 0 <= i < entries.len() && #[trigger] entries[i].0@ == key
}

spec fn distinct_keys<T>(entries: Seq<(String, T)>) -> bool {
    forall|i: int, j: int|
        0 <= i < j < entries.len() ==> #[trigger] entries[i].0@ != #[trigger] entries[j].0@
}

spec fn entries_map<T: View>(entries: Seq<(String, T)>) -> Map<Seq<char>, T::V> {
    Map::new(
        |key: Seq<char>| has_entry(entries, key),
        |key: Seq<char>| entries[entry_index(entries, key)].1@,
    )
}

proof fn lemma_entry<T: View>(entries: Seq<(String, T)>, i: int)
    requires
        distinct_keys(entries),
        0 <= i < entries.len(),
    ensures
        has_entry(entries, entries[i].0@),
        entry_index(entries, entries[i].0@) == i,
        entries_map(entries).contains_key(entries[i].0@),
        entries_map(entries)[entries[i].0@] == entries[i].1@,
{
    let key = entries[i].0@;
    assert(has_entry(entries, key));
    let k = entry_index(entries, key);
    assert(entries[k].0@ == key);
    if k < i {
        assert(entries[k].0@ != entries[i].0@);
    } else if i < k {
        assert(entries[i].0@ != entries[k].0@);
    }
}

impl<T: View> View for StrMap<T> {
    type V = Map<Seq<char>, T::V>;

    closed spec fn view(&self) -> Map<Seq<char>, T::V> {
        entries_map(self.entries@)
    }
}

impl<T> StrMap<T> {
    #[verifier::type_invariant]
    spec fn distinct(self) -> bool {
        distinct_keys(self.entries@)
    }
}

impl<T: View> StrMap<T> {
    /// The keys in the order of the entries.
    pub closed spec fn order(&self) -> Seq<Seq<char>> {
        Seq::new(self.entries@.len(), |i: int| self.entries@[i].0@)
    }

    pub fn new() -> (r: Self)
        ensures
            r@ == Map::<Seq<char>, T::V>::empty(),
    {
        let r = StrMap { entries: Vec::new() };
        assert(r@ =~= Map::<Seq<char>, T::V>::empty());
        r
    }

    /// The number of entries. The keys of the entries are those of the map, each once.
    pub fn len(&self) -> (r: usize)
        ensures
            r == self.order().len(),
            r == self@.dom().len(),
            self@.dom().finite(),
            self.order().no_duplicates(),
            self.order().to_set() == self@.dom(),
    {
        proof {
            use_type_invariant(self);
            let order = self.order();
            assert(order.no_duplicates());
            assert forall|key: Seq<char>| order.to_set().contains(key) == self@.dom().contains(
                key,
            ) by {
                if order.to_set().contains(key) {
                    let i = choose|i: int| 0 <= i < order.len() && order[i] == key;
                    assert(self.entries@[i].0@ == key);
                }
                if self@.dom().contains(key) {
                    let i = entry_index(self.entries@, key);
                    assert(order[i] == key);
                }
            }
            assert(order.to_set() =~= self@.dom());
            order.unique_seq_to_set();
        }
        self.entries.len()
    }

    /// The keys in ascending order.
    pub fn sorted_keys(&self) -> (r: Vec<String>)
        ensures
            ascending_texts(texts(r@)),
            texts(r@).to_set() == self@.dom(),
    {
        let n: usize = self.len();
        let mut keys: StrSet = StrSet::new();
        let mut i: usize = 0;
        assert(keys@ =~= self.order().take(0).to_set());
        while i < n
            invariant
                i <= n,
                n == self.order().len(),
                keys@ == self.order().take(i as int).to_set(),
            decreases n - i,
        {
            keys.insert(self.key_at(i));
            proof {
                lemma_take_one_more(self.order(), i as int);
            }
            i = i + 1;
        }
        assert(self.order().take(n as int) =~= self.order());
        keys.sorted()
    }

    pub fn key_at(&self, i: usize) -> (r: &str)
        requires
            i < self.order().len(),
        ensures
            r@ == self.order()[i as int],
    {
        self.entries[i].0.as_str()
    }

    pub fn value_at(&self, i: usize) -> (r: &T)
        requires
            i < self.order().len(),
        ensures
            self@.contains_key(self.order()[i as int]),
            r@ == self@[self.order()[i as int]],
    {
        proof {
            use_type_invariant(self);
            lemma_entry(self.entries@, i as int);
        }
        &self.entries[i].1
    }

    fn find(&self, key: &str) -> (r: Option<usize>)
        ensures
            match r {
                Some(i) => i < self.entries@.len() && self.entries@[i as int].0@ == key@,
                None => !has_entry(self.entries@, key@),
            },
    {
        let mut i: usize = 0;
        while i < self.entries.len()
            invariant
                i <= self.entries@.len(),
                forall|k: int| 0 <= k < i ==> #[trigger] self.entries@[k].0@ != key@,
            decreases self.entries@.len() - i,
        {
            if same(self.entries[i].0.as_str(), key) {
                return Some(i);
            }
            i = i + 1;
        }
        None
    }

    pub fn contains(&self, key: &str) -> (r: bool)
        ensures
            r == self@.contains_key(key@),
    {
        self.find(key).is_some()
    }

    pub fn get(&self, key: &str) -> (r: Option<&T>)
        ensures
            match r {
                Some(v) => self@.contains_key(key@) && v@ == self@[key@],
                None => !self@.contains_key(key@),
            },
    {
        match self.find(key) {
            Some(i) => {
                proof {
                    use_type_invariant(self);
                    lemma_entry(self.entries@, i as int);
                }
                Some(&self.entries[i].1)
            },
            None => None,
        }
    }

    pub fn insert(&mut self, key: &str, value: T)
        ensures
            final(self)@ == old(self)@.insert(key@, value@),
    {
        proof {
            use_type_invariant(&*self);
        }
        let ghost before = self.entries@;
        let found: Option<usize> = self.find(key);
        let mut entries: Vec<(String, T)> = Vec::new();
        std::mem::swap(&mut entries, &mut self.entries);
        match found {
            Some(i) => {
                entries.set(i, (key.to_string(), value));
                proof {
                    lemma_set_entry(before, entries@, i as int);
                }
            },
            None => {
                entries.push((key.to_string(), value));
                proof {
                    lemma_push_entry(before, entries@[before.len() as int]);
                }
            },
        }
        self.entries = entries;
    }

    pub fn remove(&mut self, key: &str) -> (r: Option<T>)
        ensures
            final(self)@ == old(self)@.remove(key@),
            match r {
                Some(v) => old(self)@.contains_key(key@) && v@ == old(self)@[key@],
                None => !old(self)@.contains_key(key@),
            },
    {
        proof {
            use_type_invariant(&*self);
        }
        let ghost before = self.entries@;
        match self.find(key) {
            Some(i) => {
                proof {
                    lemma_entry(before, i as int);
                }
                let mut entries: Vec<(String, T)> = Vec::new();
                std::mem::swap(&mut entries, &mut self.entries);
                let (_, value) = entries.remove(i);
                proof {
                    lemma_remove_entry(before, i as int);
                }
                self.entries = entries;
                Some(value)
            },
            None => {
                assert(self@ =~= old(self)@.remove(key@));
                None
            },
        }
    }
}

proof fn lemma_set_entry<T: View>(before: Seq<(String, T)>, after: Seq<(String, T)>, i: int)
    requires
        distinct_keys(before),
        0 <= i < before.len(),
        after == before.update(i, after[i]),
        after[i].0@ == before[i].0@,
    ensures
        distinct_keys(after),
        entries_map(after) == entries_map(before).insert(after[i].0@, after[i].1@),
{
    let key = after[i].0@;
    assert forall|a: int, b: int| 0 <= a < b < after.len() implies #[trigger] after[a].0@
        != #[trigger] after[b].0@ by {
        assert(before[a].0@ != before[b].0@);
    }
    lemma_entry(after, i);
    assert forall|k: Seq<char>| has_entry(after, k) == has_entry(before, k) by {
        if has_entry(before, k) {
            let a = entry_index(before, k);
            assert(after[a].0@ == before[a].0@);
        }
        if has_entry(after, k) {
            let a = entry_index(after, k);
            assert(before[a].0@ == after[a].0@);
        }
    }
    assert forall|k: Seq<char>| #[trigger] has_entry(before, k) && k != key implies entries_map(
        after,
    )[k] == entries_map(before)[k] by {
        let a = entry_index(before, k);
        lemma_entry(before, a);
        assert(after[a] == before[a]);
        lemma_entry(after, a);
    }
    lemma_entry(before, i);
    assert(entries_map(after) =~= entries_map(before).insert(key, after[i].1@));
}

proof fn lemma_push_entry<T: View>(before: Seq<(String, T)>, entry: (String, T))
    requires
        distinct_keys(before),
        !has_entry(before, entry.0@),
    ensures
        distinct_keys(before.push(entry)),
        entries_map(before.push(entry)) == entries_map(before).insert(entry.0@, entry.1@),
{
    let after = before.push(entry);
    let n = before.len() as int;
    assert forall|a: int, b: int| 0 <= a < b < after.len() implies #[trigger] after[a].0@
        != #[trigger] after[b].0@ by {
        assert(before[a].0@ != entry.0@);
    }
    lemma_entry(after, n);
    assert forall|k: Seq<char>|
        has_entry(after, k) == (has_entry(before, k) || k == entry.0@) by {
        if has_entry(before, k) {
            let a = entry_index(before, k);
            assert(after[a].0@ == before[a].0@);
        }
        if has_entry(after, k) && k != entry.0@ {
            let a = entry_index(after, k);
            assert(before[a].0@ == after[a].0@);
        }
    }
    assert forall|k: Seq<char>| #[trigger] has_entry(before, k) implies entries_map(after)[k]
        == entries_map(before)[k] by {
        let a = entry_index(before, k);
        lemma_entry(before, a);
        assert(after[a] == before[a]);
        lemma_entry(after, a);
    }
    assert(entries_map(after) =~= entries_map(before).insert(entry.0@, entry.1@));
}

proof fn lemma_remove_entry<T: View>(before: Seq<(String, T)>, i: int)
    requires
        distinct_keys(before),
        0 <= i < before.len(),
    ensures
        distinct_keys(before.remove(i)),
        entries_map(before.remove(i)) == entries_map(before).remove(before[i].0@),
{
    let after = before.remove(i);
    let key = before[i].0@;
    assert forall|a: int, b: int| 0 <= a < b < after.len() implies #[trigger] after[a].0@
        != #[trigger] after[b].0@ by {
        let a2 = if a < i { a } else { a + 1 };
        let b2 = if b < i { b } else { b + 1 };
        assert(before[a2].0@ != before[b2].0@);
    }
    assert forall|k: Seq<char>| has_entry(after, k) == (has_entry(before, k) && k != key) by {
        if has_entry(before, k) && k != key {
            let a = entry_index(before, k);
            assert(after[if a < i { a } else { a - 1 }].0@ == before[a].0@);
        }
        if has_entry(after, k) {
            let a = entry_index(after, k);
            let a2 = if a < i { a } else { a + 1 };
            assert(before[a2].0@ == after[a].0@);
            if a2 < i {
                assert(before[a2].0@ != before[i].0@);
            } else {
                assert(before[i].0@ != before[a2].0@);
            }
        }
    }
    assert forall|k: Seq<char>| #[trigger] has_entry(after, k) implies entries_map(after)[k]
        == entries_map(before)[k] by {
        let a = entry_index(after, k);
        let a2 = if a < i { a } else { a + 1 };
        lemma_entry(after, a);
        assert(before[a2] == after[a]);
        lemma_entry(before, a2);
    }
    assert(entries_map(after) =~= entries_map(before).remove(key));
}

// ---------------------------------------------------------------------------
// Sets of texts
// ---------------------------------------------------------------------------

/// The texts of a row of strings.
pub open spec fn texts(v: Seq<String>) -> Seq<Seq<char>> {
    v.map_values(|s: String| s@)
}

/// A set of texts, in the order in which they came.
#[derive(Debug)]
pub struct StrSet {
    items: Vec<String>,
}

impl View for StrSet {
    type V = Set<Seq<char>>;

    closed spec fn view(&self) -> Set<Seq<char>> {
        texts(self.items@).to_set()
    }
}

impl StrSet {
    #[verifier::type_invariant]
    spec fn distinct(self) -> bool {
        texts(self.items@).no_duplicates()
    }

    pub fn new() -> (r: Self)
        ensures
            r@ == Set::<Seq<char>>::empty(),
    {
        let r = StrSet { items: Vec::new() };
        assert(r@ =~= Set::<Seq<char>>::empty());
        r
    }

    pub fn len(&self) -> (r: usize)
        ensures
            r == self@.len(),
            self@.finite(),
    {
        proof {
            use_type_invariant(self);
            texts(self.items@).unique_seq_to_set();
        }
        self.items.len()
    }

    fn find(&self, item: &str) -> (r: Option<usize>)
        ensures
            match r {
                Some(i) => i < self.items@.len() && self.items@[i as int]@ == item@,
                None => !self@.contains(item@),
            },
    {
        let mut i: usize = 0;
        while i < self.items.len()
            invariant
                i <= self.items@.len(),
                forall|k: int| 0 <= k < i ==> #[trigger] self.items@[k]@ != item@,
            decreases self.items@.len() - i,
        {
            if same(self.items[i].as_str(), item) {
                return Some(i);
            }
            i = i + 1;
        }
        assert(!self@.contains(item@)) by {
            if self@.contains(item@) {
                let k = choose|k: int|
                    0 <= k < texts(self.items@).len() && texts(self.items@)[k] == item@;
                assert(self.items@[k]@ == item@);
            }
        }
        None
    }

    pub fn contains(&self, item: &str) -> (r: bool)
        ensures
            r == self@.contains(item@),
    {
        match self.find(item) {
            Some(i) => {
                assert(texts(self.items@)[i as int] == item@);
                true
            },
            None => false,
        }
    }

    /// Adds a text; tells whether it was new.
    pub fn insert(&mut self, item: &str) -> (r: bool)
        ensures
            final(self)@ == old(self)@.insert(item@),
            r == !old(self)@.contains(item@),
    {
        proof {
            use_type_invariant(&*self);
        }
        if self.contains(item) {
            assert(self@ =~= old(self)@.insert(item@));
            return false;
        }
        let mut items: Vec<String> = Vec::new();
        std::mem::swap(&mut items, &mut self.items);
        let ghost before = items@;
        items.push(item.to_string());
        proof {
            let a = texts(before);
            let b = texts(items@);
            assert(b =~= a.push(item@));
            assert(b.no_duplicates()) by {
                assert forall|i: int, j: int| 0 <= i < b.len() && 0 <= j < b.len() && i != j implies b[i]
                    != b[j] by {
                    if i < a.len() && j < a.len() {
                        assert(a[i] != a[j]);
                    } else if i < a.len() {
                        assert(a.to_set().contains(a[i]));
                    } else {
                        assert(a.to_set().contains(a[j]));
                    }
                }
            }
            assert forall|x: Seq<char>| b.to_set().contains(x) == a.to_set().insert(
                item@,
            ).contains(x) by {
                if a.contains(x) {
                    let k = choose|k: int| 0 <= k < a.len() && a[k] == x;
                    assert(b[k] == x);
                }
                assert(b[a.len() as int] == item@);
            }
            assert(b.to_set() =~= a.to_set().insert(item@));
        }
        self.items = items;
        true
    }

    /// Takes a text out; tells whether it was there.
    pub fn remove(&mut self, item: &str) -> (r: bool)
        ensures
            final(self)@ == old(self)@.remove(item@),
            r == old(self)@.contains(item@),
    {
        proof {
            use_type_invariant(&*self);
        }
        match self.find(item) {
            None => {
                assert(self@ =~= old(self)@.remove(item@));
                false
            },
            Some(i) => {
                let mut items: Vec<String> = Vec::new();
                std::mem::swap(&mut items, &mut self.items);
                let ghost before = items@;
                items.remove(i);
                proof {
                    let a = texts(before);
                    let b = texts(items@);
                    assert(a[i as int] == item@);
                    assert(b =~= a.remove(i as int));
                    assert forall|x: Seq<char>| b.to_set().contains(x) == a.to_set().remove(
                        item@,
                    ).contains(x) by {
                        if a.contains(x) && x != item@ {
                            let k = choose|k: int| 0 <= k < a.len() && a[k] == x;
                            assert(b[if k < i { k } else { k - 1 }] == x);
                        }
                        if b.contains(x) {
                            let k = choose|k: int| 0 <= k < b.len() && b[k] == x;
                            assert(a[if k < i { k } else { k + 1 }] == x);
                        }
                    }
                    assert(b.to_set() =~= a.to_set().remove(item@));
                }
                self.items = items;
                true
            },
        }
    }

    /// The texts in ascending order.
    pub fn sorted(&self) -> (r: Vec<String>)
        ensures
            ascending_texts(texts(r@)),
            texts(r@).to_set() == self@,
    {
        proof {
            use_type_invariant(self);
        }
        let mut out: Vec<String> = Vec::new();
        let mut i: usize = 0;
        let ghost all = texts(self.items@);
        assert(texts(out@).to_set() =~= all.take(0).to_set());
        while i < self.items.len()
            invariant
                i <= self.items@.len(),
                all == texts(self.items@),
                all.no_duplicates(),
                ascending_texts(texts(out@)),
                texts(out@).to_set() == all.take(i as int).to_set(),
            decreases self.items@.len() - i,
        {
            proof {
                lemma_take_one_more(all, i as int);
                assert(texts(out@).to_set().contains(all[i as int]) == texts(out@).contains(
                    all[i as int],
                ));
            }
            insert_text_sorted(&mut out, self.items[i].clone());
            i = i + 1;
        }
        assert(all.take(i as int) =~= all);
        out
    }
}

/// Puts a text that is not there yet into its place.
fn insert_text_sorted(out: &mut Vec<String>, item: String)
    requires
        ascending_texts(texts(old(out)@)),
        !texts(old(out)@).contains(item@),
    ensures
        ascending_texts(texts(final(out)@)),
        texts(final(out)@).to_set() == texts(old(out)@).to_set().insert(item@),
{
    let mut i: usize = 0;
    while i < out.len() && comes_before(out[i].as_str(), item.as_str())
        invariant
            i <= out@.len(),
            out@ == old(out)@,
            forall|k: int| 0 <= k < i ==> precedes(#[trigger] texts(out@)[k], item@),
        decreases out@.len() - i,
    {
        assert(texts(out@)[i as int] == out@[i as int]@);
        i = i + 1;
    }
    let ghost before = texts(out@);
    let ghost text = item@;
    proof {
        assert forall|k: int| i <= k < before.len() implies precedes(text, #[trigger] before[k]) by {
            assert(before.contains(before[i as int]));
            assert(before[i as int] == out@[i as int]@);
            lemma_precedes_total(before[i as int], text);
            if k > i {
                lemma_precedes_transitive(text, before[i as int], before[k]);
            }
        }
    }
    out.insert(i, item);
    proof {
        let after = texts(out@);
        assert(after =~= before.insert(i as int, text));
        assert forall|a: int, b: int| 0 <= a < b < after.len() implies precedes(
            #[trigger] after[a],
            #[trigger] after[b],
        ) by {
            if a < i && b > i {
                assert(precedes(before[a], before[b - 1]));
            } else if a < i && b < i {
                assert(precedes(before[a], before[b]));
            } else if a > i {
                assert(precedes(before[a - 1], before[b - 1]));
            } else if a == i {
                assert(precedes(text, before[b - 1]));
            } else {
                assert(precedes(before[a], text));
            }
        }
        assert forall|x: Seq<char>| after.to_set().contains(x) == before.to_set().insert(
            text,
        ).contains(x) by {
            if before.contains(x) {
                let k = choose|k: int| 0 <= k < before.len() && before[k] == x;
                assert(after[if k < i { k } else { k + 1 }] == x);
            }
            assert(after[i as int] == text);
            if after.contains(x) {
                let k = choose|k: int| 0 <= k < after.len() && after[k] == x;
                if k < i {
                    assert(before[k] == x);
                } else if k > i {
                    assert(before[k - 1] == x);
                }
            }
        }
        assert(after.to_set() =~= before.to_set().insert(text));
    }
}

} // verus!
