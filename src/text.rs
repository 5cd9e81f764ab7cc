use vstd::prelude::*;
use crate::common::is_digit;

verus! {

/// Index of the first `c` at or after `i` in `s`, or `s.len()` when there is none.
pub open spec fn scan_for(s: Seq<char>, c: char, i: int) -> int
    decreases s.len() - i,
{
    if i >= s.len() {
        s.len() as int
    } else if s[i] == c {
        i
    } else {
        scan_for(s, c, i + 1)
    }
}

pub open spec fn is_space(c: char) -> bool {
    c == ' ' || c == '\t' || c == '\n' || c == '\r'
}

/// First index at or after `i` that is not whitespace (or `s.len()`).
pub open spec fn skip_space(s: Seq<char>, i: int) -> int
    decreases s.len() - i,
{
    if i >= s.len() {
        s.len() as int
    } else if !is_space(s[i]) {
        i
    } else {
        skip_space(s, i + 1)
    }
}

/// End of `s[lo..j]` once trailing whitespace is dropped.
pub open spec fn drop_space_back(s: Seq<char>, lo: int, j: int) -> int
    decreases j - lo,
{
    if j <= lo {
        lo
    } else if !is_space(s[j - 1]) {
        j
    } else {
        drop_space_back(s, lo, j - 1)
    }
}

/// `s` without leading and trailing whitespace.
pub open spec fn trim(s: Seq<char>) -> Seq<char> {
    let lo = skip_space(s, 0);
    s.subrange(lo, drop_space_back(s, lo, s.len() as int))
}

/// Value of a run of decimal digits.
pub open spec fn digits_value(d: Seq<char>) -> int
    decreases d.len(),
{
    if d.len() == 0 {
        0
    } else {
        digits_value(d.drop_last()) * 10 + (d.last() as int - '0' as int)
    }
}

pub open spec fn all_digits(d: Seq<char>) -> bool {
    forall|i: int| 0 <= i < d.len() ==> is_digit(#[trigger] d[i])
}

pub open spec fn pow10(n: nat) -> int
    decreases n,
{
    if n == 0 {
        1
    } else {
        10 * pow10((n - 1) as nat)
    }
}

pub proof fn lemma_pow10_mono(a: nat, b: nat)
    requires
        a <= b,
    ensures
        1 <= pow10(a) <= pow10(b),
    decreases b,
{
    if b > a {
        lemma_pow10_mono(a, (b - 1) as nat);
    } else if a > 0 {
        lemma_pow10_mono((a - 1) as nat, (a - 1) as nat);
    }
}

/// Index of the first `c` at or after `i` in `s`, or its length.
pub fn find_char(s: &str, c: char, i: usize) -> (r: usize)
    requires
        i <= s@.len(),
    ensures
        r == scan_for(s@, c, i as int),
        i <= r <= s@.len(),
{
    let n = s.unicode_len();
    let mut j = i;
    while j < n && s.get_char(j) != c
        invariant
            i <= j <= n == s@.len(),
            scan_for(s@, c, i as int) == scan_for(s@, c, j as int),
        decreases n - j,
    {
        j = j + 1;
    }
    j
}

/// `s` without leading and trailing whitespace.
pub fn trim_text(s: &str) -> (r: String)
    ensures
        r@ == trim(s@),
{
    let n = s.unicode_len();
    let mut lo: usize = 0;
    while lo < n && is_space_char(s.get_char(lo))
        invariant
            lo <= n == s@.len(),
            skip_space(s@, 0) == skip_space(s@, lo as int),
        decreases n - lo,
    {
        lo = lo + 1;
    }
    let mut hi: usize = n;
    while hi > lo && is_space_char(s.get_char(hi - 1))
        invariant
            lo <= hi <= n == s@.len(),
            lo == skip_space(s@, 0),
            drop_space_back(s@, lo as int, n as int) == drop_space_back(s@, lo as int, hi as int),
        decreases hi,
    {
        hi = hi - 1;
    }
    String::from_str(s.substring_char(lo, hi))
}

fn is_space_char(c: char) -> (r: bool)
    ensures
        r == is_space(c),
{
    c == ' ' || c == '\t' || c == '\n' || c == '\r'
}

/// First index at or after `i` that does not hold a digit (or `s.len()`).
pub open spec fn skip_digits(s: Seq<char>, i: int) -> int
    decreases s.len() - i,
{
    if i >= s.len() {
        s.len() as int
    } else if !is_digit(s[i]) {
        i
    } else {
        skip_digits(s, i + 1)
    }
}

/// The largest value an `i64` holds.
pub open spec fn i64_limit() -> int {
    i64::MAX as int
}

pub proof fn lemma_digits_nonneg(d: Seq<char>)
    requires
        all_digits(d),
    ensures
        digits_value(d) >= 0,
    decreases d.len(),
{
    if d.len() > 0 {
        lemma_all_digits_take(d, d.len() - 1);
        assert(d.take(d.len() - 1) =~= d.drop_last());
        lemma_digits_nonneg(d.drop_last());
        assert(is_digit(d[d.len() - 1]));
    }
}

pub proof fn lemma_all_digits_take(d: Seq<char>, i: int)
    requires
        all_digits(d),
        0 <= i <= d.len(),
    ensures
        all_digits(d.take(i)),
{
    assert forall|k: int| 0 <= k < d.take(i).len() implies is_digit(#[trigger] d.take(i)[k]) by {
        assert(d.take(i)[k] == d[k]);
    }
}

/// A prefix of a run of digits is worth no more than the whole run.
pub proof fn lemma_digits_prefix_le(d: Seq<char>, i: int)
    requires
        all_digits(d),
        0 <= i <= d.len(),
    ensures
        digits_value(d.take(i)) <= digits_value(d),
    decreases d.len(),
{
    if i < d.len() {
        let p = d.drop_last();
        lemma_all_digits_take(d, d.len() - 1);
        assert(d.take(d.len() - 1) =~= p);
        assert(p.take(i) =~= d.take(i));
        lemma_digits_prefix_le(p, i);
        lemma_digits_nonneg(p);
        assert(is_digit(d[d.len() - 1]));
    } else {
        assert(d.take(i) =~= d);
    }
}

/// Index of the first non-digit at or after `i`, or the length.
pub fn find_non_digit(s: &str, i: usize) -> (r: usize)
    requires
        i <= s@.len(),
    ensures
        r == skip_digits(s@, i as int),
        i <= r <= s@.len(),
        all_digits(s@.subrange(i as int, r as int)),
{
    let n = s.unicode_len();
    let mut j = i;
    while j < n && ('0' <= s.get_char(j) && s.get_char(j) <= '9')
        invariant
            i <= j <= n == s@.len(),
            skip_digits(s@, i as int) == skip_digits(s@, j as int),
            all_digits(s@.subrange(i as int, j as int)),
        decreases n - j,
    {
        assert forall|k: int| 0 <= k < s@.subrange(i as int, j + 1).len() implies is_digit(
            #[trigger] s@.subrange(i as int, j + 1)[k],
        ) by {
            if k < j - i {
                assert(s@.subrange(i as int, j + 1)[k] == s@.subrange(i as int, j as int)[k]);
            }
        }
        j = j + 1;
    }
    j
}

/// Value of the digits `s[from..to]`, when they are all digits and the value
/// fits an `i64`.
pub fn digits_checked(s: &str, from: usize, to: usize) -> (r: Option<u64>)
    requires
        from <= to <= s@.len(),
    ensures
        r is Some <==> (all_digits(s@.subrange(from as int, to as int)) && digits_value(
            s@.subrange(from as int, to as int),
        ) <= i64_limit()),
        r matches Some(v) ==> v as int == digits_value(s@.subrange(from as int, to as int)),
{
    let ghost d = s@.subrange(from as int, to as int);
    let mut acc: u64 = 0;
    let mut i: usize = from;
    while i < to
        invariant
            from <= i <= to <= s@.len(),
            d == s@.subrange(from as int, to as int),
            all_digits(s@.subrange(from as int, i as int)),
            acc as int == digits_value(s@.subrange(from as int, i as int)),
            acc as int <= i64_limit(),
        decreases to - i,
    {
        let c = s.get_char(i);
        if !('0' <= c && c <= '9') {
            assert(d[i - from] == c);
            return None;
        }
        let ghost prev = s@.subrange(from as int, i as int);
        let ghost next = s@.subrange(from as int, i + 1);
        assert(next.drop_last() =~= prev);
        assert(all_digits(next)) by {
            assert forall|k: int| 0 <= k < next.len() implies is_digit(#[trigger] next[k]) by {
                if k < prev.len() {
                    assert(next[k] == prev[k]);
                }
            }
        }
        let wide = acc as u128 * 10 + (c as u32 - '0' as u32) as u128;
        if wide > i64::MAX as u128 {
            proof {
                if all_digits(d) {
                    assert(d.take(i + 1 - from) =~= next);
                    lemma_digits_prefix_le(d, i + 1 - from);
                }
            }
            return None;
        }
        acc = wide as u64;
        i = i + 1;
    }
    assert(s@.subrange(from as int, i as int) =~= d);
    Some(acc)
}

} // verus!
