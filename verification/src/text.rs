//! Character-level helpers: whitespace, trimming, splitting and decimal
//! numbers, each with its meaning stated over `Seq<char>`.

use vstd::prelude::*;
use vstd::std_specs::iter::IteratorSpec;
use vstd::string::group_string_axioms;

verus! {

/// Whether two string slices hold the same characters.
pub(crate) fn same_text(a: &str, b: &str) -> (r: bool)
    ensures
        r == (a@ == b@),
{
    broadcast use group_string_axioms;

    let mut x = a.chars();
    let mut y = b.chars();
    let ghost mut n: int = 0;
    loop
        invariant
            0 <= n <= a@.len(),
            n <= b@.len(),
            x.remaining() == a@.skip(n),
            y.remaining() == b@.skip(n),
            a@.take(n) == b@.take(n),
        decreases a@.len() - n,
    {
        let p = x.next();
        let q = y.next();
        match (p, q) {
            (Some(c), Some(d)) => {
                assert(c == a@[n] && d == b@[n]);
                if c != d {
                    return false;
                }
                proof {
                    assert(a@.take(n + 1) =~= a@.take(n).push(a@[n]));
                    assert(b@.take(n + 1) =~= b@.take(n).push(b@[n]));
                    assert(a@.skip(n).drop_first() =~= a@.skip(n + 1));
                    assert(b@.skip(n).drop_first() =~= b@.skip(n + 1));
                    n = n + 1;
                }
            },
            (None, None) => {
                proof {
                    assert(a@.take(n) =~= a@);
                    assert(b@.take(n) =~= b@);
                }
                return true;
            },
            _ => {
                return false;
            },
        }
    }
}

/// The characters with the Unicode property `White_Space`.
pub open spec fn is_space(c: char) -> bool {
    let n = c as u32;
    ||| 0x09 <= n <= 0x0d
    ||| n == 0x20
    ||| n == 0x85
    ||| n == 0xa0
    ||| n == 0x1680
    ||| 0x2000 <= n <= 0x200a
    ||| n == 0x2028
    ||| n == 0x2029
    ||| n == 0x202f
    ||| n == 0x205f
    ||| n == 0x3000
}

/// Whether a character is whitespace.
pub fn is_whitespace(c: char) -> (r: bool)
    ensures
        r == is_space(c),
{
    let n: u32 = c as u32;
    (0x09 <= n && n <= 0x0d) || n == 0x20 || n == 0x85 || n == 0xa0 || n == 0x1680 || (0x2000 <= n
        && n <= 0x200a) || n == 0x2028 || n == 0x2029 || n == 0x202f || n == 0x205f || n == 0x3000
}

/// A character that may open an instruction: an ASCII letter or a brace.
pub open spec fn is_starter(c: char) -> bool {
    ||| 'a' <= c <= 'z'
    ||| 'A' <= c <= 'Z'
    ||| c == '{'
    ||| c == '}'
}

/// Whether a character may open an instruction.
pub fn starts_instruction(c: char) -> (r: bool)
    ensures
        r == is_starter(c),
{
    ('a' <= c && c <= 'z') || ('A' <= c && c <= 'Z') || c == '{' || c == '}'
}

/// The characters of a string slice, in order.
pub fn chars_of(s: &str) -> (v: Vec<char>)
    ensures
        v@ == s@,
{
    let mut v: Vec<char> = Vec::new();
    for c in it: s.chars()
        invariant
            v@ == it.seq().take(it.index() as int),
            it.seq() == s@,
    {
        v.push(c);
    }
    v
}

/// The first index in `[i, j)` that holds no whitespace, or `j`.
pub open spec fn skip_spaces(s: Seq<char>, i: int, j: int) -> int
    decreases j - i,
{
    if i >= j || i < 0 || j > s.len() {
        j
    } else if is_space(s[i]) {
        skip_spaces(s, i + 1, j)
    } else {
        i
    }
}

/// The end of the last non-whitespace character in `[i, j)`, or `i`.
pub open spec fn back_spaces(s: Seq<char>, i: int, j: int) -> int
    decreases j - i,
{
    if i >= j || i < 0 || j > s.len() {
        i
    } else if is_space(s[j - 1]) {
        back_spaces(s, i, j - 1)
    } else {
        j
    }
}

/// The bounds of `[i, j)` without leading and trailing whitespace.
pub open spec fn trim_bounds(s: Seq<char>, i: int, j: int) -> (int, int) {
    let a = skip_spaces(s, i, j);
    (a, back_spaces(s, a, j))
}

/// `s[i..j]` without leading and trailing whitespace.
pub open spec fn trimmed_part(s: Seq<char>, i: int, j: int) -> Seq<char> {
    let (a, b) = trim_bounds(s, i, j);
    s.subrange(a, b)
}

/// `s` without leading and trailing whitespace.
pub open spec fn trimmed(s: Seq<char>) -> Seq<char> {
    trimmed_part(s, 0, s.len() as int)
}

/// The first character that is no whitespace lies within the bounds.
pub proof fn lemma_skip_spaces_bounds(s: Seq<char>, i: int, j: int)
    requires
        0 <= i <= j <= s.len(),
    ensures
        i <= skip_spaces(s, i, j) <= j,
    decreases j - i,
{
    if i < j && is_space(s[i]) {
        lemma_skip_spaces_bounds(s, i + 1, j);
    }
}

/// The last character that is no whitespace lies within the bounds.
pub proof fn lemma_back_spaces_bounds(s: Seq<char>, i: int, j: int)
    requires
        0 <= i <= j <= s.len(),
    ensures
        i <= back_spaces(s, i, j) <= j,
    decreases j - i,
{
    if i < j && is_space(s[j - 1]) {
        lemma_back_spaces_bounds(s, i, j - 1);
    }
}

/// The trimmed bounds lie within the bounds.
pub proof fn lemma_trim_bounds(s: Seq<char>, i: int, j: int)
    requires
        0 <= i <= j <= s.len(),
    ensures
        i <= trim_bounds(s, i, j).0 <= trim_bounds(s, i, j).1 <= j,
{
    lemma_skip_spaces_bounds(s, i, j);
    lemma_back_spaces_bounds(s, skip_spaces(s, i, j), j);
}

/// The trimmed bounds of `v[i..j]`.
pub fn trim_range(v: &Vec<char>, i: usize, j: usize) -> (r: (usize, usize))
    requires
        i <= j <= v@.len(),
    ensures
        (r.0 as int, r.1 as int) == trim_bounds(v@, i as int, j as int),
        i <= r.0 <= r.1 <= j,
{
    proof {
        lemma_trim_bounds(v@, i as int, j as int);
    }
    let mut a: usize = i;
    while a < j && is_whitespace(v[a])
        invariant
            i <= a <= j <= v@.len(),
            skip_spaces(v@, a as int, j as int) == skip_spaces(v@, i as int, j as int),
        decreases j - a,
    {
        a = a + 1;
    }
    let mut b: usize = j;
    while a < b && is_whitespace(v[b - 1])
        invariant
            a <= b <= j <= v@.len(),
            back_spaces(v@, a as int, b as int) == back_spaces(v@, a as int, j as int),
        decreases b - a,
    {
        b = b - 1;
    }
    (a, b)
}

/// The pieces of `s` between the occurrences of `sep`, read from `i` on, the
/// current piece having begun at `start`.
pub open spec fn split_from(s: Seq<char>, sep: char, start: int, i: int) -> Seq<(int, int)>
    decreases s.len() - i,
{
    if i >= s.len() || i < 0 {
        seq![(start, s.len() as int)]
    } else if s[i] == sep {
        seq![(start, i)] + split_from(s, sep, i + 1, i + 1)
    } else {
        split_from(s, sep, start, i + 1)
    }
}

/// The bounds of the pieces that `sep` cuts `s[lo..hi]` into. There is
/// always at least one piece, and an empty piece between two separators.
pub open spec fn split_bounds(s: Seq<char>, sep: char, lo: int, hi: int) -> Seq<(int, int)> {
    split_from(s.take(hi), sep, lo, lo)
}

/// Cuts `v[lo..hi]` at every `sep`.
pub fn split_range(v: &Vec<char>, sep: char, lo: usize, hi: usize) -> (r: Vec<(usize, usize)>)
    requires
        lo <= hi <= v@.len(),
    ensures
        r@.len() == split_bounds(v@, sep, lo as int, hi as int).len(),
        r@.len() >= 1,
        forall|k: int|
            0 <= k < r@.len() ==> (#[trigger] r@[k].0 as int, r@[k].1 as int) == split_bounds(
                v@,
                sep,
                lo as int,
                hi as int,
            )[k],
        forall|k: int| 0 <= k < r@.len() ==> lo <= (#[trigger] r@[k]).0 <= r@[k].1 <= hi,
        forall|k: int, m: int|
            0 <= k < m < r@.len() ==> (#[trigger] r@[k]).1 < (#[trigger] r@[m]).0,
{
    let ghost s = v@.take(hi as int);
    let mut out: Vec<(usize, usize)> = Vec::new();
    let mut start: usize = lo;
    let mut i: usize = lo;
    while i < hi
        invariant
            lo <= start <= i <= hi <= v@.len(),
            s == v@.take(hi as int),
            split_bounds(v@, sep, lo as int, hi as int) == Seq::new(
                out@.len(),
                |k: int| (out@[k].0 as int, out@[k].1 as int),
            ) + split_from(s, sep, start as int, i as int),
            forall|k: int| 0 <= k < out@.len() ==> lo <= (#[trigger] out@[k]).0 <= out@[k].1 <= hi,
            forall|k: int| 0 <= k < out@.len() ==> (#[trigger] out@[k]).1 < start,
            forall|k: int, m: int|
                0 <= k < m < out@.len() ==> (#[trigger] out@[k]).1 < (#[trigger] out@[m]).0,
        decreases hi - i,
    {
        let ghost before = Seq::new(out@.len(), |k: int| (out@[k].0 as int, out@[k].1 as int));
        let ghost begun = start as int;
        if v[i] == sep {
            out.push((start, i));
            start = i + 1;
            proof {
                let after = Seq::new(out@.len(), |k: int| (out@[k].0 as int, out@[k].1 as int));
                assert(after =~= before + seq![(begun, i as int)]) by {
                    assert(after.len() == before.len() + 1);
                }
            }
        }
        i = i + 1;
    }
    out.push((start, hi));
    proof {
        let fin = split_bounds(v@, sep, lo as int, hi as int);
        let got = Seq::new(out@.len(), |k: int| (out@[k].0 as int, out@[k].1 as int));
        assert(got =~= fin);
        assert forall|k: int| 0 <= k < out@.len() implies (#[trigger] out@[k].0 as int, out@[k].1 as int)
            == fin[k] by {
            assert(got[k] == fin[k]);
        }
    }
    out
}

/// The value of a decimal digit.
pub open spec fn digit_value(c: char) -> int {
    c as u32 as int - '0' as u32 as int
}

/// A decimal digit.
pub open spec fn is_digit(c: char) -> bool {
    '0' <= c <= '9'
}

/// A text of decimal digits.
pub open spec fn all_digits(s: Seq<char>) -> bool {
    forall|i: int| 0 <= i < s.len() ==> is_digit(#[trigger] s[i])
}

/// The number that the digits of `s` write in base ten.
pub open spec fn decimal_value(s: Seq<char>) -> int
    decreases s.len(),
{
    if s.len() == 0 {
        0
    } else {
        10 * decimal_value(s.drop_last()) + digit_value(s.last())
    }
}

/// An unsigned decimal number of at most `limit`: an optional `+`, then one
/// digit or more.
pub open spec fn unsigned_number(s: Seq<char>, limit: int) -> Option<int> {
    let digits = if s.len() > 0 && s[0] == '+' {
        s.drop_first()
    } else {
        s
    };
    if digits.len() > 0 && all_digits(digits) && decimal_value(digits) <= limit {
        Some(decimal_value(digits))
    } else {
        None
    }
}

/// What `s` reads as a `u8`, where it is one.
pub open spec fn u8_of(s: Seq<char>) -> Option<u8> {
    match unsigned_number(s, 255) {
        Some(n) => Some(n as u8),
        None => None,
    }
}

/// What `s` reads as an `i8`, where it is one: an optional sign, then digits.
pub open spec fn i8_of(s: Seq<char>) -> Option<i8> {
    if s.len() > 0 && s[0] == '-' {
        let digits = s.drop_first();
        if digits.len() > 0 && all_digits(digits) && decimal_value(digits) <= 128 {
            Some((-decimal_value(digits)) as i8)
        } else {
            None
        }
    } else {
        match unsigned_number(s, 127) {
            Some(n) => Some(n as i8),
            None => None,
        }
    }
}

/// The value of digits is at least the value of any of their beginnings.
pub proof fn lemma_decimal_value_grows(s: Seq<char>, k: int)
    requires
        all_digits(s),
        0 <= k <= s.len(),
    ensures
        0 <= decimal_value(s.take(k)) <= decimal_value(s),
    decreases s.len() - k,
{
    if k == s.len() {
        assert(s.take(k) =~= s);
        lemma_decimal_value_nonnegative(s);
    } else {
        lemma_decimal_value_grows(s, k + 1);
        let t = s.take(k + 1);
        assert(t.drop_last() =~= s.take(k));
        assert(t.last() == s[k]);
        assert(is_digit(s[k]));
        lemma_decimal_value_nonnegative(s.take(k));
    }
}

/// The value of digits is not negative.
pub proof fn lemma_decimal_value_nonnegative(s: Seq<char>)
    requires
        all_digits(s),
    ensures
        decimal_value(s) >= 0,
    decreases s.len(),
{
    if s.len() > 0 {
        assert(is_digit(s.last()));
        assert(all_digits(s.drop_last())) by {
            assert forall|i: int| 0 <= i < s.drop_last().len() implies is_digit(
                #[trigger] s.drop_last()[i],
            ) by {
                assert(s.drop_last()[i] == s[i]);
            }
        }
        lemma_decimal_value_nonnegative(s.drop_last());
    }
}

/// Reads the digits `v[lo..hi]` as a number of at most `limit`.
fn read_digits(v: &Vec<char>, lo: usize, hi: usize, limit: u32) -> (r: Option<u32>)
    requires
        lo <= hi <= v@.len(),
        limit <= 1000,
    ensures
        r is Some <==> lo < hi && all_digits(v@.subrange(lo as int, hi as int)) && decimal_value(
            v@.subrange(lo as int, hi as int),
        ) <= limit,
        r matches Some(n) ==> n as int == decimal_value(v@.subrange(lo as int, hi as int)),
{
    if lo >= hi {
        return None;
    }
    let ghost s = v@.subrange(lo as int, hi as int);
    let mut acc: u32 = 0;
    let mut i: usize = lo;
    while i < hi
        invariant
            lo <= i <= hi <= v@.len(),
            s == v@.subrange(lo as int, hi as int),
            all_digits(s.take(i - lo)),
            acc == decimal_value(s.take(i - lo)),
            acc <= limit <= 1000,
        decreases hi - i,
    {
        let c = v[i];
        proof {
            let t = s.take(i - lo + 1);
            assert(t.drop_last() =~= s.take(i - lo));
            assert(t.last() == c);
        }
        if !('0' <= c && c <= '9') {
            proof {
                assert(s[i - lo] == c);
                assert(!all_digits(s));
            }
            return None;
        }
        let next: u32 = acc * 10 + (c as u32 - '0' as u32);
        proof {
            let t = s.take(i - lo + 1);
            assert(all_digits(t)) by {
                assert forall|k: int| 0 <= k < t.len() implies is_digit(#[trigger] t[k]) by {
                    if k < i - lo {
                        assert(t[k] == s.take(i - lo)[k]);
                    }
                }
            }
            assert(next == decimal_value(t));
        }
        if next > limit {
            proof {
                if all_digits(s) {
                    lemma_decimal_value_grows(s, i - lo + 1);
                }
            }
            return None;
        }
        acc = next;
        i = i + 1;
    }
    proof {
        assert(s.take(hi - lo) =~= s);
    }
    Some(acc)
}

/// Reads `v[lo..hi]` as a `u8`.
pub fn read_u8(v: &Vec<char>, lo: usize, hi: usize) -> (r: Option<u8>)
    requires
        lo <= hi <= v@.len(),
    ensures
        r == u8_of(v@.subrange(lo as int, hi as int)),
{
    let ghost s = v@.subrange(lo as int, hi as int);
    let from = if lo < hi && v[lo] == '+' {
        lo + 1
    } else {
        lo
    };
    proof {
        if lo < hi {
            assert(s[0] == v@[lo as int]);
        }
        if from > lo {
            assert(s.drop_first() =~= v@.subrange(from as int, hi as int));
        }
    }
    match read_digits(v, from, hi, 255) {
        Some(n) => Some(n as u8),
        None => None,
    }
}

/// Reads `v[lo..hi]` as an `i8`.
pub fn read_i8(v: &Vec<char>, lo: usize, hi: usize) -> (r: Option<i8>)
    requires
        lo <= hi <= v@.len(),
    ensures
        r == i8_of(v@.subrange(lo as int, hi as int)),
{
    let ghost s = v@.subrange(lo as int, hi as int);
    proof {
        if lo < hi {
            assert(s[0] == v@[lo as int]);
            assert(s.drop_first() =~= v@.subrange(lo + 1, hi as int));
        }
    }
    if lo < hi && v[lo] == '-' {
        match read_digits(v, lo + 1, hi, 128) {
            Some(n) => {
                let m: i16 = -(n as i16);
                Some(m as i8)
            },
            None => None,
        }
    } else {
        let from = if lo < hi && v[lo] == '+' {
            lo + 1
        } else {
            lo
        };
        match read_digits(v, from, hi, 127) {
            Some(n) => Some(n as i8),
            None => None,
        }
    }
}

} // verus!
