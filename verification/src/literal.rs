//! The texts that the standard library reads as an `i64`, an `f64` or a `bool`.
use vstd::prelude::*;
use crate::text::{chars_of, is_decimal_digit, str_eq};

verus! {

/// The value of the decimal digit `c`.
pub open spec fn digit_value(c: char) -> int {
    c as int - '0' as int
}

/// Every character of `s` is an ASCII decimal digit.
pub open spec fn all_digits(s: Seq<char>) -> bool {
    forall|k: int| 0 <= k < s.len() ==> is_decimal_digit(#[trigger] s[k])
}

/// The number that the digits `s` write in base ten.
pub open spec fn digits_value(s: Seq<char>) -> int
    decreases s.len(),
{
    if s.len() == 0 {
        0
    } else {
        digits_value(s.drop_last()) * 10 + digit_value(s.last())
    }
}

/// `s` without the one `+` or `-` it may start with.
pub open spec fn unsigned(s: Seq<char>) -> Seq<char> {
    if s.len() > 0 && (s[0] == '+' || s[0] == '-') { s.drop_first() } else { s }
}

/// What `str::parse::<i64>` accepts: an optional sign, then one or more ASCII digits, whose
/// value fits in an `i64`.
pub open spec fn i64_text(s: Seq<char>) -> Option<int> {
    let body = unsigned(s);
    let v = if s.len() > 0 && s[0] == '-' { -digits_value(body) } else { digits_value(body) };
    if body.len() > 0 && all_digits(body) && i64::MIN <= v <= i64::MAX {
        Some(v)
    } else {
        None
    }
}

/// What `str::parse::<bool>` accepts: exactly `true` or `false`.
pub open spec fn bool_text(s: Seq<char>) -> Option<bool> {
    if s == "true"@ {
        Some(true)
    } else if s == "false"@ {
        Some(false)
    } else {
        None
    }
}

/// `c` with an ASCII capital made small.
pub open spec fn ascii_lower(c: char) -> char {
    if 'A' <= c <= 'Z' { (c as int + 32) as char } else { c }
}

/// `s` with its ASCII capitals made small.
pub open spec fn lowered(s: Seq<char>) -> Seq<char> {
    s.map_values(|c: char| ascii_lower(c))
}

/// How many of the characters of `s` are `c`.
pub open spec fn count_of(s: Seq<char>, c: char) -> nat
    decreases s.len(),
{
    if s.len() == 0 {
        0
    } else {
        count_of(s.drop_last(), c) + if s.last() == c { 1nat } else { 0nat }
    }
}

/// The part before an exponent: ASCII digits with at most one point, and at least one digit.
pub open spec fn mantissa_text(s: Seq<char>) -> bool {
    &&& forall|k: int| 0 <= k < s.len() ==> (is_decimal_digit(#[trigger] s[k]) || s[k] == '.')
    &&& count_of(s, '.') <= 1
    &&& count_of(s, '.') < s.len()
}

/// The part after an `e`: an optional sign, then one or more ASCII digits.
pub open spec fn exponent_text(s: Seq<char>) -> bool {
    unsigned(s).len() > 0 && all_digits(unsigned(s))
}

/// The index of the first `e` or `E` in `s` at or after `k`, or the length of `s`.
pub open spec fn first_exp(s: Seq<char>, k: int) -> int
    decreases s.len() - k,
{
    if k >= s.len() {
        s.len() as int
    } else if s[k] == 'e' || s[k] == 'E' {
        k
    } else {
        first_exp(s, k + 1)
    }
}

/// What `str::parse::<f64>` accepts, as its documentation states the grammar: an optional
/// sign, then `inf`, `infinity` or `nan` in any case, or a decimal number with an optional
/// exponent.
pub open spec fn float_text(s: Seq<char>) -> bool {
    let b = unsigned(s);
    let l = lowered(b);
    let p = first_exp(b, 0);
    ||| l == seq!['i', 'n', 'f']
    ||| l == seq!['i', 'n', 'f', 'i', 'n', 'i', 't', 'y']
    ||| l == seq!['n', 'a', 'n']
    ||| (p < b.len() && mantissa_text(b.take(p)) && exponent_text(b.skip(p + 1)))
    ||| (p == b.len() && mantissa_text(b))
}

proof fn lemma_digits_grow(s: Seq<char>, k: int)
    requires
        all_digits(s),
        0 <= k <= s.len(),
    ensures
        0 <= digits_value(s.take(k)) <= digits_value(s),
    decreases s.len(),
{
    if s.len() > 0 {
        if k == s.len() {
            assert(s.take(k) =~= s);
            lemma_digits_grow(s.drop_last(), k - 1);
            assert(s.drop_last().take(k - 1) =~= s.drop_last());
        } else {
            assert(s.drop_last().take(k) =~= s.take(k));
            lemma_digits_grow(s.drop_last(), k);
        }
        assert(is_decimal_digit(s.last()));
    } else {
        assert(s.take(k) =~= s);
    }
}

proof fn lemma_take_digits(s: Seq<char>, k: int)
    requires
        0 <= k < s.len(),
    ensures
        digits_value(s.take(k + 1)) == digits_value(s.take(k)) * 10 + digit_value(s[k]),
{
    assert(s.take(k + 1).drop_last() =~= s.take(k));
}

/// `s.parse::<i64>().ok()`: the value that `s` writes, when it is an `i64`.
pub fn parse_i64(s: &str) -> (r: Option<i64>)
    ensures
        match i64_text(s@) {
            Some(v) => r == Some(v as i64),
            None => r is None,
        },
{
    let cs = chars_of(s);
    let n = cs.len();
    let neg = n > 0 && cs[0] == '-';
    let start: usize = if n > 0 && (cs[0] == '-' || cs[0] == '+') { 1 } else { 0 };
    let ghost body = unsigned(s@);
    assert(body =~= cs@.subrange(start as int, n as int));
    if start >= n {
        return None;
    }
    let limit: u128 = 9223372036854775808;
    let mut mag: u128 = 0;
    let mut k: usize = start;
    while k < n
        invariant
            start <= k <= n,
            n == cs.len(),
            cs@ == s@,
            body == unsigned(s@),
            neg == (s@.len() > 0 && s@[0] == '-'),
            limit == 9223372036854775808,
            body == cs@.subrange(start as int, n as int),
            all_digits(body.take(k - start)),
            mag == digits_value(body.take(k - start)),
            mag <= limit,
        decreases n - k,
    {
        let c = cs[k];
        if !('0' <= c && c <= '9') {
            assert(!all_digits(body)) by {
                assert(body[k - start] == c);
                assert(!is_decimal_digit(body[k - start]));
            }
            return None;
        }
        proof {
            lemma_take_digits(body, k - start);
        }
        let d: u128 = (c as u32 - '0' as u32) as u128;
        assert(mag * 10 <= limit * 10) by (nonlinear_arith)
            requires
                mag <= limit,
        ;
        mag = mag * 10 + d;
        k += 1;
        assert(body.take(k - start) =~= body.take(k - 1 - start).push(c));
        if mag > limit {
            proof {
                assert(all_digits(body.take(k - start)));
                if all_digits(body) {
                    lemma_digits_grow(body, k - start);
                }
            }
            return None;
        }
    }
    assert(body.take(k - start) =~= body);
    if neg {
        let v: i128 = -(mag as i128);
        Some(v as i64)
    } else if mag < limit {
        Some(mag as i64)
    } else {
        None
    }
}

/// `s.parse::<bool>().ok()`.
pub fn parse_bool(s: &str) -> (r: Option<bool>)
    ensures
        r == bool_text(s@),
{
    if str_eq(s, "true") {
        Some(true)
    } else if str_eq(s, "false") {
        Some(false)
    } else {
        None
    }
}

/// Whether `c` read with ASCII capitals as small is `w`.
fn lower_is(c: char, w: char) -> (r: bool)
    ensures
        r == (ascii_lower(c) == w),
{
    if 'A' <= c && c <= 'Z' {
        let cu: u32 = c as u32;
        let wu: u32 = w as u32;
        proof {
            assert(ascii_lower(c) as int == cu + 32);
        }
        cu + 32 == wu
    } else {
        c == w
    }
}

/// Whether `v[lo..hi]` is a mantissa: digits and at most one point, with a digit among them.
fn is_mantissa(v: &Vec<char>, lo: usize, hi: usize) -> (r: bool)
    requires
        lo <= hi <= v.len(),
    ensures
        r == mantissa_text(v@.subrange(lo as int, hi as int)),
{
    let ghost t = v@.subrange(lo as int, hi as int);
    let mut dots: usize = 0;
    let mut k: usize = lo;
    while k < hi
        invariant
            lo <= k <= hi <= v.len(),
            t == v@.subrange(lo as int, hi as int),
            forall|j: int| 0 <= j < k - lo ==> (is_decimal_digit(#[trigger] t[j]) || t[j] == '.'),
            dots == count_of(t.take(k - lo), '.'),
            dots <= 1,
        decreases hi - k,
    {
        let c = v[k];
        assert(t[k - lo] == c);
        assert(t.take(k + 1 - lo).drop_last() =~= t.take(k - lo));
        if c == '.' {
            if dots == 1 {
                proof {
                    lemma_count_prefix(t, k + 1 - lo, '.');
                }
                return false;
            }
            dots = dots + 1;
        } else if !('0' <= c && c <= '9') {
            return false;
        }
        k += 1;
    }
    assert(t.take(k - lo) =~= t);
    dots < hi - lo
}

proof fn lemma_count_prefix(s: Seq<char>, k: int, c: char)
    requires
        0 <= k <= s.len(),
    ensures
        count_of(s.take(k), c) <= count_of(s, c),
    decreases s.len(),
{
    if k < s.len() {
        assert(s.drop_last().take(k) =~= s.take(k));
        lemma_count_prefix(s.drop_last(), k, c);
    } else {
        assert(s.take(k) =~= s);
    }
}

/// Whether `v[lo..hi]` is an exponent: an optional sign, then one or more digits.
fn is_exponent(v: &Vec<char>, lo: usize, hi: usize) -> (r: bool)
    requires
        lo <= hi <= v.len(),
    ensures
        r == exponent_text(v@.subrange(lo as int, hi as int)),
{
    let ghost t = v@.subrange(lo as int, hi as int);
    let start: usize = if lo < hi && (v[lo] == '+' || v[lo] == '-') { lo + 1 } else { lo };
    assert(unsigned(t) =~= v@.subrange(start as int, hi as int));
    if start >= hi {
        return false;
    }
    let mut k: usize = start;
    while k < hi
        invariant
            start <= k <= hi <= v.len(),
            t == v@.subrange(lo as int, hi as int),
            unsigned(t) == v@.subrange(start as int, hi as int),
            forall|j: int| start <= j < k ==> is_decimal_digit(#[trigger] v@[j]),
        decreases hi - k,
    {
        if !('0' <= v[k] && v[k] <= '9') {
            assert(unsigned(t)[k - start] == v@[k as int]);
            assert(!is_decimal_digit(unsigned(t)[k - start]));
            return false;
        }
        k += 1;
    }
    assert forall|j: int| 0 <= j < unsigned(t).len() implies is_decimal_digit(#[trigger] unsigned(t)[j]) by {
        assert(unsigned(t)[j] == v@[start + j]);
    }
    true
}

/// Whether `v[lo..]` spells `w`, with ASCII capitals in `v` read as small.
fn lower_equals(v: &Vec<char>, lo: usize, w: &Vec<char>) -> (r: bool)
    requires
        lo <= v.len(),
    ensures
        r == (lowered(v@.subrange(lo as int, v.len() as int)) == w@),
{
    let ghost t = v@.subrange(lo as int, v.len() as int);
    if v.len() - lo != w.len() {
        assert(lowered(t).len() != w@.len());
        return false;
    }
    let mut k: usize = 0;
    while k < w.len()
        invariant
            k <= w.len(),
            v.len() - lo == w.len(),
            t == v@.subrange(lo as int, v.len() as int),
            forall|j: int| 0 <= j < k ==> ascii_lower(#[trigger] t[j]) == w@[j],
        decreases w.len() - k,
    {
        if !lower_is(v[lo + k], w[k]) {
            assert(lowered(t)[k as int] != w@[k as int]);
            return false;
        }
        k += 1;
    }
    assert(lowered(t) =~= w@);
    true
}

/// Whether `s.parse::<f64>()` succeeds.
pub fn is_float_text(s: &str) -> (r: bool)
    ensures
        r == float_text(s@),
{
    let cs = chars_of(s);
    let n = cs.len();
    let start: usize = if n > 0 && (cs[0] == '-' || cs[0] == '+') { 1 } else { 0 };
    let ghost b = unsigned(s@);
    assert(b =~= cs@.subrange(start as int, n as int));
    let inf = vec!['i', 'n', 'f'];
    let infinity = vec!['i', 'n', 'f', 'i', 'n', 'i', 't', 'y'];
    let nan = vec!['n', 'a', 'n'];
    assert(inf@ =~= seq!['i', 'n', 'f']);
    assert(infinity@ =~= seq!['i', 'n', 'f', 'i', 'n', 'i', 't', 'y']);
    assert(nan@ =~= seq!['n', 'a', 'n']);
    if lower_equals(&cs, start, &inf) || lower_equals(&cs, start, &infinity)
        || lower_equals(&cs, start, &nan) {
        return true;
    }
    let mut p: usize = start;
    while p < n && !(cs[p] == 'e' || cs[p] == 'E')
        invariant
            start <= p <= n,
            n == cs.len(),
            b == cs@.subrange(start as int, n as int),
            first_exp(b, p - start) == first_exp(b, 0),
        decreases n - p,
    {
        assert(b[p - start] == cs@[p as int]);
        p += 1;
    }
    proof {
        if p < n {
            assert(b[p - start] == cs@[p as int]);
        }
        assert(first_exp(b, p - start) == p - start);
    }
    if p < n {
        assert(b.take(p - start) =~= cs@.subrange(start as int, p as int));
        assert(b.skip(p - start + 1) =~= cs@.subrange(p + 1, n as int));
        is_mantissa(&cs, start, p) && is_exponent(&cs, p + 1, n)
    } else {
        is_mantissa(&cs, start, n)
    }
}

} // verus!
