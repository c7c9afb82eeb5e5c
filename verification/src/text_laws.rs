//! What callers can rely on when they trim, compare, read and write text.

use crate::text::{
    all_digits, comes_before, decimal, decimal_string, digit_char, digits_value, has_prefix,
    is_digit, is_space, is_whitespace, lemma_decimal, parse_u64, precedes, push_decimal, same,
    string_of, trim, trim_end, trim_start, trimmed, trimmed_start, trimmed_string, unsigned,
};
use vstd::prelude::*;
use vstd::string::*;

verus! {

// ---------------------------------------------------------------------------
// White space
// ---------------------------------------------------------------------------

/// The code points of white space.
pub open spec fn white_points() -> Set<u32> {
    set![
        0x9,
        0xA,
        0xB,
        0xC,
        0xD,
        0x20,
        0x85,
        0xA0,
        0x1680,
        0x2000,
        0x2001,
        0x2002,
        0x2003,
        0x2004,
        0x2005,
        0x2006,
        0x2007,
        0x2008,
        0x2009,
        0x200A,
        0x2028,
        0x2029,
        0x202F,
        0x205F,
        0x3000
    ]
}

/// A character is white space exactly if its code point is one of those of white space.
pub proof fn law_white_space(c: char, r: bool)
    requires
        call_ensures(is_whitespace, (c,), r),
    ensures
        r <==> white_points().contains(c as u32),
{
}

/// Whether a text is what is left of another one without some white space in front and some
/// behind, `front` and `behind` characters of it.
pub open spec fn cut(s: Seq<char>, front: int, behind: int, r: Seq<char>) -> bool {
    &&& 0 <= front
    &&& 0 <= behind
    &&& front + behind <= s.len()
    &&& r == s.subrange(front, s.len() - behind)
    &&& forall|i: int|
        0 <= i < front ==> white_points().contains((#[trigger] s[i]) as u32)
    &&& forall|i: int|
        s.len() - behind <= i < s.len() ==> white_points().contains((#[trigger] s[i]) as u32)
}

proof fn lemma_trim_start(s: Seq<char>) -> (front: int)
    ensures
        cut(s, front, 0, trim_start(s)),
        trim_start(s).len() > 0 ==> !white_points().contains(trim_start(s)[0] as u32),
    decreases s.len(),
{
    if s.len() > 0 && is_space(s[0]) {
        let rest = s.skip(1);
        let m = lemma_trim_start(rest);
        assert(rest.subrange(m, rest.len() as int) =~= s.subrange(m + 1, s.len() as int));
        assert forall|i: int| 0 <= i < m + 1 implies white_points().contains(
            (#[trigger] s[i]) as u32,
        ) by {
            if i > 0 {
                assert(rest[i - 1] == s[i]);
            }
        }
        m + 1
    } else {
        assert(s.subrange(0, s.len() as int) =~= s);
        0
    }
}

proof fn lemma_trim_end(s: Seq<char>) -> (behind: int)
    ensures
        cut(s, 0, behind, trim_end(s)),
        trim_end(s).len() > 0 ==> !white_points().contains(trim_end(s).last() as u32),
    decreases s.len(),
{
    if s.len() > 0 && is_space(s.last()) {
        let rest = s.drop_last();
        let m = lemma_trim_end(rest);
        assert(rest.subrange(0, rest.len() - m) =~= s.subrange(0, s.len() - (m + 1)));
        assert forall|i: int| s.len() - (m + 1) <= i < s.len() implies white_points().contains(
            (#[trigger] s[i]) as u32,
        ) by {
            if i < s.len() - 1 {
                assert(rest[i] == s[i]);
            }
        }
        m + 1
    } else {
        assert(s.subrange(0, s.len() as int) =~= s);
        0
    }
}

/// Trimming drops the white space at both ends and nothing else.
pub proof fn law_trim(s: Seq<char>)
    ensures
        exists|front: int, behind: int| #[trigger] cut(s, front, behind, trim(s)),
        trim(s).len() > 0 ==> !white_points().contains(trim(s)[0] as u32)
            && !white_points().contains(trim(s).last() as u32),
{
    let front = lemma_trim_start(s);
    let mid = trim_start(s);
    let behind = lemma_trim_end(mid);
    assert(mid.subrange(0, mid.len() - behind) =~= s.subrange(front, s.len() - behind));
    assert forall|i: int| s.len() - behind <= i < s.len() implies white_points().contains(
        (#[trigger] s[i]) as u32,
    ) by {
        assert(mid[i - front] == s[i]);
    }
    assert(cut(s, front, behind, trim(s)));
    if trim(s).len() > 0 {
        assert(trim(s)[0] == mid[0]);
    }
}

/// A trimmed text is the text without the white space at both ends.
pub proof fn law_trimmed_texts(s: &str, r: String, chars: &[char], whole: &[char], start: &[char])
    requires
        call_ensures(trimmed_string, (s,), r),
        call_ensures(trimmed, (chars,), whole),
        call_ensures(trimmed_start, (chars,), start),
    ensures
        exists|front: int, behind: int| #[trigger] cut(s@, front, behind, r@),
        r@.len() > 0 ==> !white_points().contains(r@[0] as u32) && !white_points().contains(
            r@.last() as u32,
        ),
        exists|front: int, behind: int| #[trigger] cut(chars@, front, behind, whole@),
        whole@.len() > 0 ==> !white_points().contains(whole@[0] as u32) && !white_points().contains(
            whole@.last() as u32,
        ),
        exists|front: int| #[trigger] cut(chars@, front, 0, start@),
        start@.len() > 0 ==> !white_points().contains(start@[0] as u32),
{
    law_trim(s@);
    law_trim(chars@);
    let front = lemma_trim_start(chars@);
    assert(cut(chars@, front, 0, start@));
}

// ---------------------------------------------------------------------------
// Comparing
// ---------------------------------------------------------------------------

/// Two strings are the same exactly if they have the same characters at the same places.
pub proof fn law_same(a: &str, b: &str, r: bool)
    requires
        call_ensures(same, (a, b), r),
    ensures
        r <==> a@.len() == b@.len() && forall|i: int| 0 <= i < a@.len() ==> #[trigger] a@[i] == b@[i],
{
    if a@.len() == b@.len() && forall|i: int| 0 <= i < a@.len() ==> #[trigger] a@[i] == b@[i] {
        assert(a@ =~= b@);
    }
}

/// A text begins with a prefix exactly if it is the prefix and something behind it.
pub proof fn law_has_prefix(s: &[char], prefix: &str, r: bool)
    requires
        call_ensures(has_prefix, (s, prefix), r),
    ensures
        r <==> exists|rest: Seq<char>| s@ == #[trigger] (prefix@ + rest),
{
    if r {
        let rest = s@.skip(prefix@.len() as int);
        assert(s@ =~= prefix@ + rest);
    }
    if exists|rest: Seq<char>| s@ == #[trigger] (prefix@ + rest) {
        let rest = choose|rest: Seq<char>| s@ == #[trigger] (prefix@ + rest);
        assert((prefix@ + rest).take(prefix@.len() as int) =~= prefix@);
    }
}

/// Whether two texts agree up to a place, at which the first one ends or has the smaller
/// character.
pub open spec fn first_difference(a: Seq<char>, b: Seq<char>, k: int) -> bool {
    &&& 0 <= k <= a.len()
    &&& k < b.len()
    &&& a.take(k) == b.take(k)
    &&& k < a.len() ==> a[k] < b[k]
}

proof fn lemma_precedes(a: Seq<char>, b: Seq<char>)
    ensures
        precedes(a, b) <==> exists|k: int| #[trigger] first_difference(a, b, k),
    decreases a.len(),
{
    if b.len() > 0 && a.len() > 0 && a[0] == b[0] {
        let x = a.skip(1);
        let y = b.skip(1);
        lemma_precedes(x, y);
        if precedes(a, b) {
            let k = choose|k: int| #[trigger] first_difference(x, y, k);
            assert(a.take(k + 1) =~= b.take(k + 1)) by {
                assert forall|i: int| 0 <= i < k + 1 implies a[i] == b[i] by {
                    if i > 0 {
                        assert(x.take(k)[i - 1] == y.take(k)[i - 1]);
                    }
                }
            }
            assert(first_difference(a, b, k + 1));
        }
        if exists|k: int| #[trigger] first_difference(a, b, k) {
            let k = choose|k: int| #[trigger] first_difference(a, b, k);
            assert(k > 0);
            assert(x.take(k - 1) =~= y.take(k - 1)) by {
                assert forall|i: int| 0 <= i < k - 1 implies x[i] == y[i] by {
                    assert(a.take(k)[i + 1] == b.take(k)[i + 1]);
                }
            }
            assert(first_difference(x, y, k - 1));
        }
    } else {
        if precedes(a, b) {
            assert(a.take(0) =~= b.take(0));
            assert(first_difference(a, b, 0));
        }
        if exists|k: int| #[trigger] first_difference(a, b, k) {
            let k = choose|k: int| #[trigger] first_difference(a, b, k);
            if k > 0 {
                assert(a.take(k)[0] == b.take(k)[0]);
            }
        }
    }
}

/// A string stands before another one exactly if at the first place where they differ it ends or
/// has the smaller character.
pub proof fn law_comes_before(a: &str, b: &str, r: bool)
    requires
        call_ensures(comes_before, (a, b), r),
    ensures
        r <==> exists|k: int| #[trigger] first_difference(a@, b@, k),
{
    lemma_precedes(a@, b@);
}

// ---------------------------------------------------------------------------
// Numbers
// ---------------------------------------------------------------------------

/// A number below ten is written as its digit; a larger one as the number without its last digit,
/// and behind that this digit.
pub proof fn law_decimal_digits(n: u64, r: String, tenth: String)
    requires
        call_ensures(decimal_string, (n,), r),
        call_ensures(decimal_string, ((n / 10) as u64,), tenth),
    ensures
        n < 10 ==> r@ == "0123456789"@.subrange(n as int, n + 1),
        n >= 10 ==> r@ == tenth@.push("0123456789"@[n as int % 10]),
{
    lemma_digit_chars();
    assert(decimal(n as nat) == if n < 10 {
        seq![digit_char(n as int)]
    } else {
        decimal(n as nat / 10).push(digit_char((n as nat % 10) as int))
    });
    if n < 10 {
        assert(r@ =~= "0123456789"@.subrange(n as int, n + 1));
    }
}

proof fn lemma_digit_chars()
    ensures
        "0123456789"@.len() == 10,
        forall|d: int| 0 <= d < 10 ==> digit_char(d) == #[trigger] "0123456789"@[d],
{
    reveal_strlit("0123456789");
}

/// Writing a number behind a text leaves the text and writes what the number is written as alone.
pub proof fn law_decimal_is_appended(out: &mut String, n: u64, alone: String)
    requires
        call_ensures(push_decimal, (out, n), ()),
        call_ensures(decimal_string, (n,), alone),
    ensures
        final(out)@ == old(out)@ + alone@,
{
}

/// A row of zeros.
pub open spec fn zeros(n: nat) -> Seq<char> {
    Seq::new(n, |i: int| '0')
}

proof fn lemma_digits_are_zeros_and_decimal(d: Seq<char>) -> (z: nat)
    requires
        d.len() > 0,
        all_digits(d),
    ensures
        d == zeros(z) + decimal(digits_value(d)),
    decreases d.len(),
{
    let head = d.drop_last();
    let v = digits_value(head);
    let last = d.last();
    assert(is_digit(last));
    let k = (last as nat - '0' as nat) as nat;
    assert(digit_char(k as int) == last);
    if head.len() == 0 {
        assert(digits_value(head) == 0);
        assert(decimal(k) =~= seq![last]);
        assert(d =~= zeros(0) + seq![last]);
        0
    } else {
        assert forall|i: int| 0 <= i < head.len() implies is_digit(#[trigger] head[i]) by {
            assert(head[i] == d[i]);
        }
        let z = lemma_digits_are_zeros_and_decimal(head);
        let n = digits_value(d);
        assert(n == v * 10 + k);
        if v == 0 {
            assert(decimal(0nat) =~= seq!['0']);
            assert(decimal(k) =~= seq![last]);
            assert(zeros(z) + seq!['0'] =~= zeros(z + 1));
            assert(d =~= head.push(last));
            assert(d =~= zeros(z + 1) + seq![last]);
            z + 1
        } else {
            assert(n / 10 == v && n % 10 == k) by (nonlinear_arith)
                requires
                    n == v * 10 + k,
                    k < 10,
            ;
            assert(decimal(n) == decimal(v).push(last));
            assert(d =~= head.push(last));
            assert(d =~= zeros(z) + decimal(v).push(last));
            z
        }
    }
}

proof fn lemma_zeros_value(z: nat, d: Seq<char>)
    requires
        all_digits(d),
    ensures
        all_digits(zeros(z) + d),
        digits_value(zeros(z) + d) == digits_value(d),
    decreases z + d.len(),
{
    let all = zeros(z) + d;
    assert forall|i: int| 0 <= i < all.len() implies is_digit(#[trigger] all[i]) by {
        if i >= z {
            assert(all[i] == d[i - z]);
        }
    }
    if d.len() > 0 {
        let head = d.drop_last();
        assert forall|i: int| 0 <= i < head.len() implies is_digit(#[trigger] head[i]) by {
            assert(head[i] == d[i]);
        }
        lemma_zeros_value(z, head);
        assert(all.drop_last() =~= zeros(z) + head);
    } else if z > 0 {
        lemma_zeros_value((z - 1) as nat, d);
        assert(all.drop_last() =~= zeros((z - 1) as nat) + d);
    } else {
        assert(all =~= d);
    }
}

/// A text is read as a number exactly if it is the decimal text of that number, with zeros in front
/// of it or not, and a plus sign in front of these or not.
pub proof fn law_numbers_are_read(s: &[char], r: Option<u64>, n: u64)
    requires
        call_ensures(parse_u64, (s,), r),
    ensures
        r == Some(n) <==> exists|z: nat|
            s@ == #[trigger] zeros(z) + decimal(n as nat) || s@ == seq!['+'] + zeros(z) + decimal(
                n as nat,
            ),
{
    let d = unsigned(s@);
    if r == Some(n) {
        let z = lemma_digits_are_zeros_and_decimal(d);
        if s@.len() > 0 && s@[0] == '+' {
            assert(s@ =~= seq!['+'] + d);
            assert(seq!['+'] + (zeros(z) + decimal(n as nat)) =~= seq!['+'] + zeros(z) + decimal(
                n as nat,
            ));
        } else {
            assert(s@ == zeros(z) + decimal(n as nat));
        }
    }
    if exists|z: nat|
        s@ == #[trigger] zeros(z) + decimal(n as nat) || s@ == seq!['+'] + zeros(z) + decimal(
            n as nat,
        ) {
        let z = choose|z: nat|
            s@ == #[trigger] zeros(z) + decimal(n as nat) || s@ == seq!['+'] + zeros(z) + decimal(
                n as nat,
            );
        lemma_decimal(n as nat);
        lemma_zeros_value(z, decimal(n as nat));
        let row = zeros(z) + decimal(n as nat);
        assert(is_digit(row[0]));
        if s@ == row {
            assert(d == row);
        } else {
            assert(s@[0] == '+');
            assert(d =~= row);
        }
    }
}

/// A string of given characters has these characters.
pub proof fn law_strings_of_characters(chars: &[char], r: String)
    requires
        call_ensures(string_of, (chars,), r),
    ensures
        r@.len() == chars@.len(),
        forall|i: int| 0 <= i < chars@.len() ==> #[trigger] r@[i] == chars@[i],
{
}

} // verus!
