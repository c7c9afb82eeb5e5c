//! A limit on how often something may happen within a sliding window of time. Times
//! and windows are in nanoseconds.

use crate::collections::{lemma_take_one_more, StrMap};
use vstd::prelude::*;
use vstd::string::*;

verus! {

/// The times at which each key was let through.
pub struct RateLimiter {
    buckets: StrMap<Vec<u128>>,
}

impl View for RateLimiter {
    type V = Map<Seq<char>, Seq<u128>>;

    closed spec fn view(&self) -> Map<Seq<char>, Seq<u128>> {
        self.buckets@
    }
}

/// How long ago a time was; nothing for a time yet to come.
pub open spec fn elapsed(now: u128, time: u128) -> int {
    if now >= time {
        now - time
    } else {
        0
    }
}

/// The times without those at the front that fell out of the window.
pub open spec fn fresh(times: Seq<u128>, now: u128, window: u128) -> Seq<u128>
    decreases times.len(),
{
    if times.len() > 0 && elapsed(now, times[0]) > window {
        fresh(times.skip(1), now, window)
    } else {
        times
    }
}

/// The keys that still have times in the window, with these times.
pub open spec fn swept(buckets: Map<Seq<char>, Seq<u128>>, now: u128, window: u128) -> Map<
    Seq<char>,
    Seq<u128>,
> {
    Map::new(
        |key: Seq<char>| buckets.contains_key(key) && fresh(buckets[key], now, window).len() > 0,
        |key: Seq<char>| fresh(buckets[key], now, window),
    )
}

/// The times of a key; none for a key that is not there.
pub open spec fn times_of(buckets: Map<Seq<char>, Seq<u128>>, key: Seq<char>) -> Seq<u128> {
    if buckets.contains_key(key) {
        buckets[key]
    } else {
        Seq::empty()
    }
}

/// Whether a key is let through.
pub open spec fn admits(
    buckets: Map<Seq<char>, Seq<u128>>,
    key: Seq<char>,
    limit: usize,
    window: u128,
    now: u128,
) -> bool {
    times_of(swept(buckets, now, window), key).len() < limit
}

/// The times after a key asked to be let through.
pub open spec fn after_call(
    buckets: Map<Seq<char>, Seq<u128>>,
    key: Seq<char>,
    limit: usize,
    window: u128,
    now: u128,
) -> Map<Seq<char>, Seq<u128>> {
    let kept = swept(buckets, now, window);
    let times = times_of(kept, key);
    kept.insert(
        key,
        if admits(buckets, key, limit, window, now) {
            times.push(now)
        } else {
            times
        },
    )
}

/// The times of an entry without those at the front that fell out of the window.
fn clean_entry(entry: &Vec<u128>, now: u128, window: u128) -> (r: Vec<u128>)
    ensures
        r@ == fresh(entry@, now, window),
{
    let mut stale: usize = 0;
    assert(entry@.skip(0) =~= entry@);
    while stale < entry.len() && now >= entry[stale] && now - entry[stale] > window
        invariant
            stale <= entry@.len(),
            fresh(entry@, now, window) == fresh(entry@.skip(stale as int), now, window),
        decreases entry@.len() - stale,
    {
        assert(entry@.skip(stale as int).skip(1) =~= entry@.skip(stale + 1));
        stale = stale + 1;
    }
    let ghost rest = entry@.skip(stale as int);
    assert(fresh(entry@, now, window) == rest) by {
        if stale < entry@.len() {
            assert(rest[0] == entry@[stale as int]);
        }
    }
    let mut out: Vec<u128> = Vec::new();
    let mut i: usize = stale;
    while i < entry.len()
        invariant
            stale <= i <= entry@.len(),
            out@ == entry@.subrange(stale as int, i as int),
        decreases entry@.len() - i,
    {
        out.push(entry[i]);
        i = i + 1;
    }
    assert(out@ =~= rest);
    out
}

impl RateLimiter {
    /// A limiter that has let nothing through yet.
    pub fn new() -> (r: RateLimiter)
        ensures
            r@ == Map::<Seq<char>, Seq<u128>>::empty(),
    {
        RateLimiter { buckets: StrMap::new() }
    }

    /// Drops the times that fell out of the window, and the keys that have none left.
    fn sweep(&mut self, now: u128, window: u128)
        ensures
            final(self)@ == swept(old(self)@, now, window),
    {
        let mut out: StrMap<Vec<u128>> = StrMap::new();
        let n: usize = self.buckets.len();
        let mut i: usize = 0;
        let ghost goal = swept(self@, now, window);
        while i < n
            invariant
                i <= n,
                n == self.buckets.order().len(),
                self.buckets.order().no_duplicates(),
                self.buckets.order().to_set() == self.buckets@.dom(),
                self@ == old(self)@,
                goal == swept(self.buckets@, now, window),
                forall|key: Seq<char>| #[trigger]
                    out@.contains_key(key) <==> self.buckets.order().take(i as int).contains(key)
                        && goal.contains_key(key),
                forall|key: Seq<char>| #[trigger]
                    out@.contains_key(key) ==> out@[key] == goal[key],
            decreases n - i,
        {
            let kept: Vec<u128> = clean_entry(self.buckets.value_at(i), now, window);
            let ghost key = self.buckets.order()[i as int];
            if kept.len() > 0 {
                out.insert(self.buckets.key_at(i), kept);
            }
            proof {
                lemma_take_one_more(self.buckets.order(), i as int);
            }
            i = i + 1;
        }
        proof {
            assert(self.buckets.order().take(n as int) =~= self.buckets.order());
            assert forall|key: Seq<char>| self.buckets.order().contains(key)
                == self.buckets@.contains_key(key) by {
                assert(self.buckets.order().to_set().contains(key) == self.buckets@.dom().contains(
                    key,
                ));
            }
            assert(out@ =~= goal);
        }
        self.buckets = out;
    }

    /// Asks to let a key through at a time: no more than `limit` times within the window.
    pub fn allow(&mut self, key: &str, limit: usize, window: u128, now: u128) -> (r: bool)
        ensures
            r == admits(old(self)@, key@, limit, window, now),
            final(self)@ == after_call(old(self)@, key@, limit, window, now),
    {
        self.sweep(now, window);
        let mut times: Vec<u128> = match self.buckets.remove(key) {
            Some(times) => times,
            None => Vec::new(),
        };
        assert(times@ =~= times_of(swept(old(self)@, now, window), key@));
        let admitted: bool = times.len() < limit;
        if admitted {
            times.push(now);
        }
        self.buckets.insert(key, times);
        assert(self@ =~= after_call(old(self)@, key@, limit, window, now));
        admitted
    }
}

impl Default for RateLimiter {
    fn default() -> (r: RateLimiter)
        ensures
            r@ == Map::<Seq<char>, Seq<u128>>::empty(),
    {
        RateLimiter::new()
    }
}

// ---------------------------------------------------------------------------
// Laws
// ---------------------------------------------------------------------------

/// A key is not affected by the calls for another key at the same time.
pub proof fn law_keys_are_independent(
    buckets: Map<Seq<char>, Seq<u128>>,
    key: Seq<char>,
    other: Seq<char>,
    limit: usize,
    window: u128,
    now: u128,
)
    requires
        key != other,
    ensures
        admits(after_call(buckets, key, limit, window, now), other, limit, window, now) == admits(
            buckets,
            other,
            limit,
            window,
            now,
        ),
{
    let after = after_call(buckets, key, limit, window, now);
    lemma_fresh_again(times_of(buckets, other), now, window);
    if swept(buckets, now, window).contains_key(other) {
        assert(after[other] == fresh(buckets[other], now, window));
        assert(swept(after, now, window).contains_key(other));
    } else {
        assert(!after.contains_key(other));
        assert(!swept(after, now, window).contains_key(other));
    }
}

proof fn lemma_fresh_again(times: Seq<u128>, now: u128, window: u128)
    ensures
        fresh(fresh(times, now, window), now, window) == fresh(times, now, window),
    decreases times.len(),
{
    if times.len() > 0 && elapsed(now, times[0]) > window {
        lemma_fresh_again(times.skip(1), now, window);
    }
}

/// A limit of zero lets nothing through.
pub proof fn law_zero_limit_denies(
    buckets: Map<Seq<char>, Seq<u128>>,
    key: Seq<char>,
    window: u128,
    now: u128,
)
    ensures
        !admits(buckets, key, 0, window, now),
{
}

/// A key whose times have all fallen out of the window is let through again.
pub proof fn law_expiry_admits_again(
    buckets: Map<Seq<char>, Seq<u128>>,
    key: Seq<char>,
    limit: usize,
    window: u128,
    now: u128,
)
    requires
        limit > 0,
        forall|i: int|
            0 <= i < times_of(buckets, key).len() ==> elapsed(
                now,
                #[trigger] times_of(buckets, key)[i],
            ) > window,
    ensures
        admits(buckets, key, limit, window, now),
{
    lemma_all_stale(times_of(buckets, key), now, window);
}

proof fn lemma_all_stale(times: Seq<u128>, now: u128, window: u128)
    requires
        forall|i: int| 0 <= i < times.len() ==> elapsed(now, #[trigger] times[i]) > window,
    ensures
        fresh(times, now, window).len() == 0,
    decreases times.len(),
{
    if times.len() > 0 {
        assert forall|i: int| 0 <= i < times.skip(1).len() implies elapsed(
            now,
            #[trigger] times.skip(1)[i],
        ) > window by {
            assert(times.skip(1)[i] == times[i + 1]);
        }
        lemma_all_stale(times.skip(1), now, window);
    }
}

/// One call: a key at a time.
pub ghost struct Call {
    pub key: Seq<char>,
    pub now: u128,
}

/// The times after a row of calls with one limit and one window.
pub open spec fn after_calls(calls: Seq<Call>, limit: usize, window: u128) -> Map<
    Seq<char>,
    Seq<u128>,
>
    decreases calls.len(),
{
    if calls.len() == 0 {
        Map::empty()
    } else {
        let last = calls.last();
        after_call(after_calls(calls.drop_last(), limit, window), last.key, limit, window, last.now)
    }
}

/// The times at which the calls of a row for a key were let through.
pub open spec fn admitted(calls: Seq<Call>, key: Seq<char>, limit: usize, window: u128) -> Seq<
    u128,
>
    decreases calls.len(),
{
    if calls.len() == 0 {
        Seq::empty()
    } else {
        let last = calls.last();
        let before = admitted(calls.drop_last(), key, limit, window);
        if last.key == key && admits(
            after_calls(calls.drop_last(), limit, window),
            key,
            limit,
            window,
            last.now,
        ) {
            before.push(last.now)
        } else {
            before
        }
    }
}

/// Whether the clock of a row of calls never goes back.
pub open spec fn ordered(calls: Seq<Call>) -> bool {
    forall|i: int, j: int|
        0 <= i <= j < calls.len() ==> (#[trigger] calls[i]).now <= (#[trigger] calls[j]).now
}

/// What is kept of a key after a row of calls: the last of the times at which it was let
/// through; those that were dropped had fallen out of the window.
spec fn tracks(calls: Seq<Call>, key: Seq<char>, limit: usize, window: u128, dropped: int) -> bool {
    let all = admitted(calls, key, limit, window);
    &&& 0 <= dropped <= all.len()
    &&& times_of(after_calls(calls, limit, window), key) == all.skip(dropped)
    &&& forall|i: int| 0 <= i < all.len() ==> #[trigger] all[i] <= calls.last().now
    &&& forall|i: int| 0 <= i < dropped ==> calls.last().now - #[trigger] all[i] > window
}

proof fn lemma_fresh_suffix(times: Seq<u128>, now: u128, window: u128) -> (n: int)
    requires
        forall|i: int| 0 <= i < times.len() ==> #[trigger] times[i] <= now,
    ensures
        0 <= n <= times.len(),
        fresh(times, now, window) == times.skip(n),
        forall|i: int| 0 <= i < n ==> now - #[trigger] times[i] > window,
    decreases times.len(),
{
    if times.len() > 0 && elapsed(now, times[0]) > window {
        let rest = times.skip(1);
        assert forall|i: int| 0 <= i < rest.len() implies #[trigger] rest[i] <= now by {
            assert(rest[i] == times[i + 1]);
        }
        let m = lemma_fresh_suffix(rest, now, window);
        assert(rest.skip(m) =~= times.skip(m + 1));
        assert forall|i: int| 0 <= i < m + 1 implies now - #[trigger] times[i] > window by {
            if i > 0 {
                assert(times[i] == rest[i - 1]);
            }
        }
        m + 1
    } else {
        assert(times.skip(0) =~= times);
        0
    }
}

/// Whether of a row of times each that stands `limit` places behind another comes more than a
/// window later.
spec fn apart(times: Seq<u128>, limit: usize, window: u128) -> bool {
    forall|i: int|
        0 <= i && i + limit < times.len() ==> times[i + limit] - (#[trigger] times[i]) > window
}

/// Sweeping drops more of the times of a key from the front, all of which have fallen out of
/// the window.
proof fn lemma_swept_suffix(
    buckets: Map<Seq<char>, Seq<u128>>,
    key: Seq<char>,
    all: Seq<u128>,
    dropped: int,
    now: u128,
    window: u128,
) -> (r: int)
    requires
        0 <= dropped <= all.len(),
        times_of(buckets, key) == all.skip(dropped),
        forall|i: int| 0 <= i < all.len() ==> #[trigger] all[i] <= now,
        forall|i: int| 0 <= i < dropped ==> now - #[trigger] all[i] > window,
    ensures
        dropped <= r <= all.len(),
        times_of(swept(buckets, now, window), key) == all.skip(r),
        forall|i: int| 0 <= i < r ==> now - #[trigger] all[i] > window,
{
    let times = all.skip(dropped);
    assert forall|i: int| 0 <= i < times.len() implies #[trigger] times[i] <= now by {
        assert(times[i] == all[i + dropped]);
    }
    let n = lemma_fresh_suffix(times, now, window);
    assert(times.skip(n) =~= all.skip(dropped + n));
    assert(times_of(swept(buckets, now, window), key) =~= times.skip(n));
    assert forall|i: int| 0 <= i < dropped + n implies now - #[trigger] all[i] > window by {
        if i >= dropped {
            assert(times[i - dropped] == all[i]);
        }
    }
    dropped + n
}

/// A time that is added stays apart where fewer than `limit` times are left in the window: it
/// stands `limit` places behind one that was dropped.
proof fn lemma_apart_push(all: Seq<u128>, dropped: int, limit: usize, now: u128, window: u128)
    requires
        apart(all, limit, window),
        0 <= dropped <= all.len(),
        all.len() - dropped < limit,
        forall|i: int| 0 <= i < dropped ==> now - #[trigger] all[i] > window,
    ensures
        apart(all.push(now), limit, window),
{
    let more = all.push(now);
    assert forall|i: int| 0 <= i && i + limit < more.len() implies more[i + limit] - (
    #[trigger] more[i]) > window by {
        assert(more[i] == all[i]);
    }
}

#[verifier::spinoff_prover]
proof fn lemma_tracks(calls: Seq<Call>, key: Seq<char>, limit: usize, window: u128) -> (dropped: int)
    requires
        calls.len() > 0,
        ordered(calls),
    ensures
        tracks(calls, key, limit, window, dropped),
        apart(admitted(calls, key, limit, window), limit, window),
    decreases calls.len(),
{
    let head = calls.drop_last();
    let last = calls.last();
    let before = after_calls(head, limit, window);
    let old_all = admitted(head, key, limit, window);
    let mut old_dropped: int = 0;
    if head.len() > 0 {
        assert(ordered(head)) by {
            assert forall|i: int, j: int| 0 <= i <= j < head.len() implies (
            #[trigger] head[i]).now <= (#[trigger] head[j]).now by {
                assert(calls[i].now <= calls[j].now);
            }
        }
        old_dropped = lemma_tracks(head, key, limit, window);
        assert(calls[calls.len() - 2].now <= calls[calls.len() - 1].now);
    } else {
        assert(times_of(before, key) =~= old_all.skip(0));
    }
    let dropped = lemma_swept_suffix(before, key, old_all, old_dropped, last.now, window);
    let kept = times_of(swept(before, last.now, window), key);
    if last.key == key && admits(before, key, limit, window, last.now) {
        lemma_apart_push(old_all, dropped, limit, last.now, window);
        assert(old_all.push(last.now).skip(dropped) =~= kept.push(last.now));
    }
    assert(times_of(after_calls(calls, limit, window), key) =~= admitted(
        calls,
        key,
        limit,
        window,
    ).skip(dropped));
    dropped
}

/// The limit holds in every window: of the times at which a key was let through, the one
/// that stands `limit` places behind another comes more than a window later.
pub proof fn law_limit_holds_in_every_window(
    calls: Seq<Call>,
    key: Seq<char>,
    limit: usize,
    window: u128,
    i: int,
)
    requires
        ordered(calls),
        0 <= i,
        i + limit < admitted(calls, key, limit, window).len(),
    ensures
        admitted(calls, key, limit, window)[i + limit] - admitted(calls, key, limit, window)[i]
            > window,
{
    if calls.len() > 0 {
        let _ = lemma_tracks(calls, key, limit, window);
    }
}

/// Whether the first `gone` of a row of times, and not the one behind them, lie more than a
/// window before a time.
pub open spec fn gone_at(times: Seq<u128>, gone: int, window: u128, now: u128) -> bool {
    &&& 0 <= gone <= times.len()
    &&& forall|i: int| 0 <= i < gone ==> #[trigger] times[i] + window < now
    &&& gone < times.len() ==> times[gone] + window >= now
}

/// Whether of a row of times only those in front that lie more than a window back were dropped.
pub open spec fn only_gone_dropped(
    before: Seq<u128>,
    after: Seq<u128>,
    window: u128,
    now: u128,
) -> bool {
    exists|gone: int| #[trigger] gone_at(before, gone, window, now) && after == before.skip(gone)
}

proof fn lemma_gone(times: Seq<u128>, now: u128, window: u128) -> (gone: int)
    ensures
        gone_at(times, gone, window, now),
        fresh(times, now, window) == times.skip(gone),
    decreases times.len(),
{
    if times.len() > 0 && elapsed(now, times[0]) > window {
        let rest = times.skip(1);
        let m = lemma_gone(rest, now, window);
        assert(rest.skip(m) =~= times.skip(m + 1));
        assert forall|i: int| 0 <= i < m + 1 implies #[trigger] times[i] + window < now by {
            if i > 0 {
                assert(times[i] == rest[i - 1]);
            }
        }
        m + 1
    } else {
        assert(times.skip(0) =~= times);
        0
    }
}

/// What is left of the times of a key when those in front that lie more than a window back have
/// gone.
pub(crate) proof fn lemma_left(buckets: Map<Seq<char>, Seq<u128>>, key: Seq<char>, now: u128, window: u128) -> (
    gone: int)
    ensures
        gone_at(times_of(buckets, key), gone, window, now),
        times_of(swept(buckets, now, window), key) == times_of(buckets, key).skip(gone),
        swept(buckets, now, window).contains_key(key) <==> gone < times_of(buckets, key).len(),
{
    let gone = lemma_gone(times_of(buckets, key), now, window);
    assert(times_of(swept(buckets, now, window), key) =~= times_of(buckets, key).skip(gone));
    gone
}

/// A key is let through exactly if fewer than `limit` of its times are left when those in front
/// that lie more than a window back have gone. Then the time of the call is put behind them;
/// otherwise nothing is. Of every other key only the times that have gone are dropped.
pub proof fn law_allow_counts_the_window(
    limiter: &mut RateLimiter,
    key: &str,
    limit: usize,
    window: u128,
    now: u128,
    r: bool,
)
    requires
        call_ensures(RateLimiter::allow, (limiter, key, limit, window, now), r),
    ensures
        exists|gone: int| #[trigger]
            gone_at(times_of(old(limiter)@, key@), gone, window, now) && (r <==> times_of(
                old(limiter)@,
                key@,
            ).len() - gone < limit) && times_of(final(limiter)@, key@) == (if r {
                times_of(old(limiter)@, key@).skip(gone).push(now)
            } else {
                times_of(old(limiter)@, key@).skip(gone)
            }),
        forall|other: Seq<char>|
            other != key@ ==> only_gone_dropped(
                times_of(old(limiter)@, other),
                #[trigger] times_of(final(limiter)@, other),
                window,
                now,
            ),
{
    let before = old(limiter)@;
    let gone = lemma_left(before, key@, now, window);
    assert(gone_at(times_of(before, key@), gone, window, now));
    assert forall|other: Seq<char>| other != key@ implies only_gone_dropped(
        times_of(before, other),
        #[trigger] times_of(final(limiter)@, other),
        window,
        now,
    ) by {
        let m = lemma_left(before, other, now, window);
        assert(gone_at(times_of(before, other), m, window, now));
        assert(times_of(final(limiter)@, other) =~= times_of(
            swept(before, now, window),
            other,
        ));
    }
}

/// A key whose times stand in their order is refused only if `limit` of them lie within the
/// window, and let through only if fewer do.
pub proof fn law_refused_only_when_used_up(
    limiter: &mut RateLimiter,
    key: &str,
    limit: usize,
    window: u128,
    now: u128,
    r: bool,
)
    requires
        call_ensures(RateLimiter::allow, (limiter, key, limit, window, now), r),
        forall|i: int, j: int|
            0 <= i <= j < times_of(old(limiter)@, key@).len() ==> #[trigger] times_of(
                old(limiter)@,
                key@,
            )[i] <= #[trigger] times_of(old(limiter)@, key@)[j],
    ensures
        ({
            let times = times_of(old(limiter)@, key@);
            let used = Set::new(|i: int| 0 <= i < times.len() && times[i] + window >= now);
            used.finite() && (r <==> used.len() < limit)
        }),
{
    let times = times_of(old(limiter)@, key@);
    let used = Set::new(|i: int| 0 <= i < times.len() && times[i] + window >= now);
    law_allow_counts_the_window(limiter, key, limit, window, now, r);
    let gone = choose|gone: int| #[trigger]
        gone_at(times, gone, window, now) && (r <==> times.len() - gone < limit);
    let places = vstd::set_lib::set_int_range(gone, times.len() as int);
    vstd::set_lib::lemma_int_range(gone, times.len() as int);
    assert forall|i: int| used.contains(i) == places.contains(i) by {
        if gone <= i < times.len() {
            assert(times[gone] <= times[i]);
        }
    }
    assert(used =~= places);
}

/// The times at which a key was let through come in their order.
proof fn lemma_admitted_in_order(calls: Seq<Call>, key: Seq<char>, limit: usize, window: u128)
    requires
        ordered(calls),
    ensures
        ({
            let all = admitted(calls, key, limit, window);
            &&& forall|i: int, j: int|
                0 <= i <= j < all.len() ==> #[trigger] all[i] <= #[trigger] all[j]
            &&& forall|i: int|
                0 <= i < all.len() ==> calls.len() > 0 && #[trigger] all[i] <= calls.last().now
        }),
    decreases calls.len(),
{
    if calls.len() > 0 {
        let head = calls.drop_last();
        assert forall|i: int, j: int| 0 <= i <= j < head.len() implies (#[trigger] head[i]).now <= (
        #[trigger] head[j]).now by {
            assert(calls[i].now <= calls[j].now);
        }
        lemma_admitted_in_order(head, key, limit, window);
        if head.len() > 0 {
            assert(calls[calls.len() - 2].now <= calls[calls.len() - 1].now);
        }
        let before = admitted(head, key, limit, window);
        let all = admitted(calls, key, limit, window);
        assert(all == before || all == before.push(calls.last().now));
        assert forall|i: int| 0 <= i < all.len() implies #[trigger] all[i] <= calls.last().now by {
            if i < before.len() {
                assert(all[i] == before[i]);
            }
        }
        assert forall|i: int, j: int| 0 <= i <= j < all.len() implies #[trigger] all[i]
            <= #[trigger] all[j] by {
            if j < before.len() {
                assert(before[i] <= before[j]);
            }
        }
    }
}

/// The limit is not kept too tightly either: after any row of calls, a key is let through at the
/// next time exactly if fewer than `limit` of the times at which it was let through lie within
/// the window.
pub proof fn law_limit_can_be_used_up(
    calls: Seq<Call>,
    key: Seq<char>,
    limit: usize,
    window: u128,
    now: u128,
)
    requires
        ordered(calls),
        calls.len() > 0 ==> calls.last().now <= now,
    ensures
        ({
            let all = admitted(calls, key, limit, window);
            let used = Set::new(|i: int| 0 <= i < all.len() && all[i] + window >= now);
            let next = admitted(calls.push(Call { key, now }), key, limit, window);
            &&& used.finite()
            &&& used.len() < limit ==> next == all.push(now)
            &&& used.len() >= limit ==> next == all
        }),
{
    let all = admitted(calls, key, limit, window);
    let used = Set::new(|i: int| 0 <= i < all.len() && all[i] + window >= now);
    let before = after_calls(calls, limit, window);
    lemma_admitted_in_order(calls, key, limit, window);
    let mut dropped: int = 0;
    if calls.len() > 0 {
        dropped = lemma_tracks(calls, key, limit, window);
        assert forall|i: int| 0 <= i < all.len() implies #[trigger] all[i] <= now by {}
        assert forall|i: int| 0 <= i < dropped implies now - #[trigger] all[i] > window by {
            assert(calls.last().now - all[i] > window);
        }
    } else {
        assert(times_of(before, key) =~= all.skip(0));
    }
    let times = all.skip(dropped);
    let gone = lemma_left(before, key, now, window);
    let first = dropped + gone;
    let places = vstd::set_lib::set_int_range(first, all.len() as int);
    vstd::set_lib::lemma_int_range(first, all.len() as int);
    assert forall|i: int| used.contains(i) == places.contains(i) by {
        if first <= i < all.len() {
            assert(times[gone] == all[first]);
            assert(all[first] <= all[i]);
        }
        if dropped <= i < first {
            assert(times[i - dropped] == all[i]);
        }
    }
    assert(used =~= places);
    assert(calls.push(Call { key, now }).drop_last() =~= calls);
}

} // verus!
