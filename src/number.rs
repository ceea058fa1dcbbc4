//! Decimal numbers as they appear in sensor files and tool output.
use vstd::prelude::*;

verus! {

pub open spec fn is_digit(c: char) -> bool {
    '0' <= c && c <= '9'
}

pub open spec fn digit_of(c: char) -> nat {
    (c as u32 - '0' as u32) as nat
}

pub open spec fn all_digits(s: Seq<char>) -> bool {
    forall|i: int| 0 <= i < s.len() ==> is_digit(#[trigger] s[i])
}

/// The value of a run of decimal digits (zero for the empty run).
pub open spec fn digits_value(s: Seq<char>) -> nat
    decreases s.len(),
{
    if s.len() == 0 {
        0
    } else {
        digits_value(s.drop_last()) * 10 + digit_of(s.last())
    }
}

/// `digits_value`, held at `cap + 1` once it passes `cap`.
pub open spec fn capped(v: nat, cap: nat) -> nat {
    if v > cap {
        cap + 1
    } else {
        v
    }
}

/// Reads the digits of `s[from..to]`; `None` when a character there is no digit.
fn scan_digits(s: &str, from: usize, to: usize, cap: u64) -> (r: Option<u128>)
    requires
        from <= to <= s@.len(),
    ensures
        r is Some <==> all_digits(s@.subrange(from as int, to as int)),
        r is Some ==> r->0 == capped(digits_value(s@.subrange(from as int, to as int)), cap as nat),
{
    let mut acc: u128 = 0;
    let mut i: usize = from;
    assert(s@.subrange(from as int, from as int) =~= Seq::<char>::empty());
    while i < to
        invariant
            from <= i <= to <= s@.len(),
            all_digits(s@.subrange(from as int, i as int)),
            acc == capped(digits_value(s@.subrange(from as int, i as int)), cap as nat),
        decreases to - i,
    {
        let c = s.get_char(i);
        let ghost prev = s@.subrange(from as int, i as int);
        let ghost next = s@.subrange(from as int, i + 1);
        assert(next.drop_last() =~= prev);
        if !('0' <= c && c <= '9') {
            assert(!is_digit(next[i - from]));
            assert(!all_digits(s@.subrange(from as int, to as int))) by {
                assert(s@.subrange(from as int, to as int)[i - from] == c);
            }
            return None;
        }
        let d = (c as u32 - '0' as u32) as u128;
        if acc <= cap as u128 {
            assert(digits_value(prev) == acc);
            let big = acc * 10 + d;
            if big > cap as u128 {
                acc = cap as u128 + 1;
            } else {
                acc = big;
            }
        } else {
            assert(digits_value(next) >= digits_value(prev)) by (nonlinear_arith)
                requires digits_value(next) == digits_value(prev) * 10 + digit_of(c);
        }
        assert(all_digits(next)) by {
            assert forall|k: int| 0 <= k < next.len() implies is_digit(#[trigger] next[k]) by {
                if k < prev.len() {
                    assert(next[k] == prev[k]);
                }
            }
        }
        i = i + 1;
    }
    Some(acc)
}

/// The text without a leading `+`, as an unsigned integer is read.
pub open spec fn unsigned_body(s: Seq<char>) -> Seq<char> {
    if s.len() > 0 && s[0] == '+' {
        s.drop_first()
    } else {
        s
    }
}

/// The value of an unsigned decimal integer that fits in 64 bits: an optional `+`
/// and one or more digits.
pub open spec fn unsigned_value(s: Seq<char>) -> Option<nat> {
    let b = unsigned_body(s);
    if b.len() > 0 && all_digits(b) && digits_value(b) <= u64::MAX {
        Some(digits_value(b))
    } else {
        None
    }
}

/// Reads an unsigned 64-bit decimal integer, as `u64::from_str` does.
pub fn parse_u64(s: &str) -> (r: Option<u64>)
    ensures
        match r {
            Some(v) => unsigned_value(s@) == Some(v as nat),
            None => unsigned_value(s@) is None,
        },
{
    let n = s.unicode_len();
    let start: usize = if n > 0 && s.get_char(0) == '+' { 1 } else { 0 };
    assert(s@.subrange(start as int, n as int) =~= unsigned_body(s@));
    if start == n {
        return None;
    }
    match scan_digits(s, start, n, u64::MAX) {
        Some(v) => {
            if v > u64::MAX as u128 {
                None
            } else {
                Some(v as u64)
            }
        },
        None => None,
    }
}

/// Index of the first `c` in `s`, or `s.len()` when there is none.
pub open spec fn first_index(s: Seq<char>, c: char) -> int
    decreases s.len(),
{
    if s.len() == 0 {
        0
    } else if s[0] == c {
        0
    } else {
        1 + first_index(s.drop_first(), c)
    }
}

pub proof fn lemma_first_index(s: Seq<char>, c: char)
    ensures
        0 <= first_index(s, c) <= s.len(),
        first_index(s, c) < s.len() ==> s[first_index(s, c)] == c,
        forall|i: int| 0 <= i < first_index(s, c) ==> s[i] != c,
    decreases s.len(),
{
    if s.len() > 0 && s[0] != c {
        lemma_first_index(s.drop_first(), c);
        assert forall|i: int| 0 <= i < first_index(s, c) implies s[i] != c by {
            if i > 0 {
                assert(s[i] == s.drop_first()[i - 1]);
            }
        }
    }
}

/// Length of the sign in front of a signed number.
pub open spec fn sign_len(s: Seq<char>) -> int {
    if s.len() > 0 && (s[0] == '+' || s[0] == '-') {
        1
    } else {
        0
    }
}

/// The unsigned part of a signed decimal: digits with at most one point.
pub open spec fn magnitude_text(s: Seq<char>) -> Seq<char> {
    s.subrange(sign_len(s), s.len() as int)
}

/// The digits before the point.
pub open spec fn whole_digits(s: Seq<char>) -> Seq<char> {
    let b = magnitude_text(s);
    b.subrange(0, first_index(b, '.'))
}

/// The digits after the point (empty when there is no point).
pub open spec fn fraction_digits(s: Seq<char>) -> Seq<char> {
    let b = magnitude_text(s);
    let k = first_index(b, '.');
    if k < b.len() {
        b.subrange(k + 1, b.len() as int)
    } else {
        Seq::empty()
    }
}

/// The first three digits of a fraction, in thousandths; later digits are cut off.
pub open spec fn fraction_milli(f: Seq<char>) -> nat {
    if f.len() == 0 {
        0
    } else if f.len() == 1 {
        digit_of(f[0]) * 100
    } else if f.len() == 2 {
        digit_of(f[0]) * 100 + digit_of(f[1]) * 10
    } else {
        digit_of(f[0]) * 100 + digit_of(f[1]) * 10 + digit_of(f[2])
    }
}

/// The magnitude of a decimal in thousandths, cut towards zero.
pub open spec fn magnitude_milli(s: Seq<char>) -> nat {
    digits_value(whole_digits(s)) * 1000 + fraction_milli(fraction_digits(s))
}

/// The value in thousandths of a decimal written as an optional sign, digits, and
/// an optional point with more digits (at least one digit in all); `None` when the
/// text has another shape or the value does not fit in an `i64`.
pub open spec fn decimal_milli(s: Seq<char>) -> Option<int> {
    let w = whole_digits(s);
    let f = fraction_digits(s);
    if all_digits(w) && all_digits(f) && w.len() + f.len() > 0 && magnitude_milli(s)
        <= i64::MAX {
        if s.len() > 0 && s[0] == '-' {
            Some(-magnitude_milli(s))
        } else {
            Some(magnitude_milli(s) as int)
        }
    } else {
        None
    }
}

/// Reads a decimal number into thousandths of its unit (`"45.5"` gives `45500`).
pub fn parse_milli(s: &str) -> (r: Option<i64>)
    ensures
        match r {
            Some(v) => decimal_milli(s@) == Some(v as int),
            None => decimal_milli(s@) is None,
        },
{
    let n = s.unicode_len();
    let negative = n > 0 && s.get_char(0) == '-';
    let start: usize = if n > 0 && (s.get_char(0) == '+' || s.get_char(0) == '-') {
        1
    } else {
        0
    };
    let ghost b = magnitude_text(s@);
    assert(b =~= s@.subrange(start as int, n as int));
    let mut k: usize = start;
    while k < n && s.get_char(k) != '.'
        invariant
            start <= k <= n,
            n == s@.len(),
            b == s@.subrange(start as int, n as int),
            forall|i: int| 0 <= i < k - start ==> b[i] != '.',
        decreases n - k,
    {
        k = k + 1;
    }
    proof {
        lemma_first_index(b, '.');
        let fi = first_index(b, '.');
        if fi < k - start {
            assert(b[fi] != '.');
        }
        if k < n {
            assert(b[k - start] == '.');
        }
        assert(fi == k - start);
    }
    let ghost w = whole_digits(s@);
    let ghost f = fraction_digits(s@);
    assert(w =~= s@.subrange(start as int, k as int));
    let frac_start: usize = if k < n { k + 1 } else { n };
    assert(f =~= s@.subrange(frac_start as int, n as int));
    let whole = match scan_digits(s, start, k, 9_300_000_000_000_000) {
        Some(v) => v,
        None => {
            return None;
        },
    };
    let frac_ok = scan_digits(s, frac_start, n, 0);
    if frac_ok.is_none() {
        return None;
    }
    if k == start && frac_start == n {
        return None;
    }
    let flen = n - frac_start;
    let mut frac: u128 = 0;
    if flen >= 1 {
        assert(is_digit(f[0]));
        frac = frac + (s.get_char(frac_start) as u32 - '0' as u32) as u128 * 100;
    }
    if flen >= 2 {
        assert(is_digit(f[1]));
        frac = frac + (s.get_char(frac_start + 1) as u32 - '0' as u32) as u128 * 10;
    }
    if flen >= 3 {
        assert(is_digit(f[2]));
        frac = frac + (s.get_char(frac_start + 2) as u32 - '0' as u32) as u128;
    }
    assert(frac == fraction_milli(f));
    let total = whole * 1000 + frac;
    if whole > 9_300_000_000_000_000 {
        assert(magnitude_milli(s@) > i64::MAX);
        return None;
    }
    if total > i64::MAX as u128 {
        return None;
    }
    assert(total == magnitude_milli(s@));
    if negative {
        Some(-(total as i64))
    } else {
        Some(total as i64)
    }
}

} // verus!
