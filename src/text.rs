//! Character-level helpers: whitespace, trimming, searching and decimal text.
use vstd::prelude::*;

verus! {

/// Unicode `White_Space` characters, as recognised by `char::is_whitespace`.
pub open spec fn is_space(c: char) -> bool {
    ('\u{9}' <= c && c <= '\u{d}') || c == ' ' || c == '\u{85}' || c == '\u{a0}'
        || c == '\u{1680}' || ('\u{2000}' <= c && c <= '\u{200a}') || c == '\u{2028}'
        || c == '\u{2029}' || c == '\u{202f}' || c == '\u{205f}' || c == '\u{3000}'
}

pub fn is_space_char(c: char) -> (r: bool)
    ensures
        r == is_space(c),
{
    ('\u{9}' <= c && c <= '\u{d}') || c == ' ' || c == '\u{85}' || c == '\u{a0}'
        || c == '\u{1680}' || ('\u{2000}' <= c && c <= '\u{200a}') || c == '\u{2028}'
        || c == '\u{2029}' || c == '\u{202f}' || c == '\u{205f}' || c == '\u{3000}'
}

/// Number of leading whitespace characters.
pub open spec fn lead_spaces(s: Seq<char>) -> nat
    decreases s.len(),
{
    if s.len() > 0 && is_space(s[0]) {
        1 + lead_spaces(s.drop_first())
    } else {
        0
    }
}

/// Number of trailing whitespace characters.
pub open spec fn trail_spaces(s: Seq<char>) -> nat
    decreases s.len(),
{
    if s.len() > 0 && is_space(s.last()) {
        1 + trail_spaces(s.drop_last())
    } else {
        0
    }
}

/// `s` without its leading and trailing whitespace.
pub open spec fn trimmed(s: Seq<char>) -> Seq<char> {
    let t = s.subrange(lead_spaces(s) as int, s.len() as int);
    t.subrange(0, t.len() - trail_spaces(t))
}

/// `s` without its leading and trailing whitespace, as `str::trim` gives it.
pub fn trim(s: &str) -> (r: &str)
    ensures
        r@ == trimmed(s@),
{
    let n = s.unicode_len();
    let mut i: usize = 0;
    assert(s@.subrange(0, n as int) =~= s@);
    while i < n && is_space_char(s.get_char(i))
        invariant
            n == s@.len(),
            i <= n,
            lead_spaces(s@) == i + lead_spaces(s@.subrange(i as int, n as int)),
        decreases n - i,
    {
        assert(s@.subrange(i as int, n as int).drop_first() =~= s@.subrange(i + 1, n as int));
        i = i + 1;
    }
    assert(lead_spaces(s@.subrange(i as int, n as int)) == 0);
    let ghost t = s@.subrange(i as int, n as int);
    let mut j: usize = n - i;
    assert(t.subrange(0, j as int) =~= t);
    while j > 0 && is_space_char(s.get_char(i + j - 1))
        invariant
            i <= n,
            j <= n - i,
            n == s@.len(),
            t == s@.subrange(i as int, n as int),
            trail_spaces(t) == (t.len() - j) + trail_spaces(t.subrange(0, j as int)),
        decreases j,
    {
        assert(t.subrange(0, j as int).drop_last() =~= t.subrange(0, j - 1));
        j = j - 1;
    }
    assert(trail_spaces(t.subrange(0, j as int)) == 0);
    assert(t.subrange(0, j as int) =~= s@.subrange(i as int, i + j));
    s.substring_char(i, i + j)
}

/// The character of a decimal digit.
pub open spec fn digit_char(d: nat) -> char {
    if d == 0 { '0' }
    else if d == 1 { '1' }
    else if d == 2 { '2' }
    else if d == 3 { '3' }
    else if d == 4 { '4' }
    else if d == 5 { '5' }
    else if d == 6 { '6' }
    else if d == 7 { '7' }
    else if d == 8 { '8' }
    else { '9' }
}

/// A natural number in decimal, without leading zeros.
pub open spec fn decimal(n: nat) -> Seq<char>
    decreases n,
{
    if n < 10 {
        seq![digit_char(n)]
    } else {
        decimal(n / 10).push(digit_char(n % 10))
    }
}

/// An integer in decimal, with a `-` in front when it is negative.
pub open spec fn signed_decimal(v: int) -> Seq<char> {
    if v < 0 {
        seq!['-'] + decimal((-v) as nat)
    } else {
        decimal(v as nat)
    }
}

/// A value given in thousandths, shown with one decimal place, rounded half away
/// from zero (`45250` is `45.3`, `-20` is `-0.0`).
pub open spec fn tenths(m: int) -> Seq<char> {
    let a: nat = if m < 0 { (-m) as nat } else { m as nat };
    let t: nat = (a + 50) / 100;
    let body = decimal(t / 10) + seq!['.', digit_char(t % 10)];
    if m < 0 {
        seq!['-'] + body
    } else {
        body
    }
}

fn digit_text(d: u64) -> (r: &'static str)
    requires
        d < 10,
    ensures
        r@ == seq![digit_char(d as nat)],
{
    proof {
        reveal_strlit("0");
        reveal_strlit("1");
        reveal_strlit("2");
        reveal_strlit("3");
        reveal_strlit("4");
        reveal_strlit("5");
        reveal_strlit("6");
        reveal_strlit("7");
        reveal_strlit("8");
        reveal_strlit("9");
    }
    match d {
        0 => "0",
        1 => "1",
        2 => "2",
        3 => "3",
        4 => "4",
        5 => "5",
        6 => "6",
        7 => "7",
        8 => "8",
        _ => "9",
    }
}

/// Appends `n` in decimal to `out`.
pub fn push_decimal(out: &mut String, n: u64)
    ensures
        final(out)@ == old(out)@ + decimal(n as nat),
    decreases n,
{
    if n < 10 {
        out.append(digit_text(n));
    } else {
        push_decimal(out, n / 10);
        out.append(digit_text(n % 10));
        assert(old(out)@ + decimal(n as nat) =~= old(out)@ + decimal((n / 10) as nat) + seq![
            digit_char((n % 10) as nat),
        ]);
    }
}

/// Appends `v` in decimal, with its sign, to `out`.
pub fn push_signed(out: &mut String, v: i64)
    ensures
        final(out)@ == old(out)@ + signed_decimal(v as int),
{
    if v < 0 {
        proof {
            reveal_strlit("-");
        }
        out.append("-");
        let a: u64 = if v == i64::MIN { 9_223_372_036_854_775_808 } else { (-v) as u64 };
        push_decimal(out, a);
        assert(final(out)@ =~= old(out)@ + signed_decimal(v as int));
    } else {
        push_decimal(out, v as u64);
    }
}

/// Appends `m` thousandths with one decimal place to `out`.
pub fn push_tenths(out: &mut String, m: i64)
    ensures
        final(out)@ == old(out)@ + tenths(m as int),
{
    let ghost start = out@;
    let a: u64 = if m == i64::MIN {
        9_223_372_036_854_775_808
    } else if m < 0 {
        (-m) as u64
    } else {
        m as u64
    };
    let t: u64 = a / 100 + if a % 100 >= 50 { 1 } else { 0 };
    assert(t == (a + 50) / 100);
    if m < 0 {
        proof {
            reveal_strlit("-");
        }
        out.append("-");
    }
    push_decimal(out, t / 10);
    proof {
        reveal_strlit(".");
    }
    out.append(".");
    out.append(digit_text(t % 10));
    assert(out@ =~= start + tenths(m as int));
}

/// `p` stands in `s` at position `i`.
pub open spec fn occurs_at(s: Seq<char>, p: Seq<char>, i: int) -> bool {
    0 <= i && i + p.len() <= s.len() && s.subrange(i, i + p.len()) == p
}

/// The first position at or after `i` where `p` stands in `s`, or `-1`.
pub open spec fn find_from(s: Seq<char>, p: Seq<char>, i: int) -> int
    decreases s.len() + 1 - i,
{
    if i < 0 || i + p.len() > s.len() {
        -1
    } else if occurs_at(s, p, i) {
        i
    } else {
        find_from(s, p, i + 1)
    }
}

/// The first position where `p` stands in `s`, or `-1`, as `str::find` reports it.
pub open spec fn find(s: Seq<char>, p: Seq<char>) -> int {
    find_from(s, p, 0)
}

pub open spec fn contains(s: Seq<char>, p: Seq<char>) -> bool {
    find(s, p) >= 0
}

pub proof fn lemma_find_from(s: Seq<char>, p: Seq<char>, i: int)
    requires
        0 <= i,
    ensures
        find_from(s, p, i) == -1 || (i <= find_from(s, p, i) && occurs_at(s, p, find_from(s, p, i))),
        forall|j: int| i <= j && (find_from(s, p, i) == -1 || j < find_from(s, p, i)) ==> !occurs_at(s, p, j),
    decreases s.len() + 1 - i,
{
    if i + p.len() <= s.len() && !occurs_at(s, p, i) {
        lemma_find_from(s, p, i + 1);
    }
}

fn occurs_at_exec(s: &str, p: &str, i: usize, n: usize, m: usize) -> (r: bool)
    requires
        n == s@.len(),
        m == p@.len(),
        i + m <= n,
    ensures
        r == occurs_at(s@, p@, i as int),
{
    let mut j: usize = 0;
    while j < m
        invariant
            n == s@.len(),
            m == p@.len(),
            i + m <= n,
            j <= m,
            forall|k: int| 0 <= k < j ==> s@[i + k] == p@[k],
        decreases m - j,
    {
        if s.get_char(i + j) != p.get_char(j) {
            assert(s@.subrange(i as int, i + m)[j as int] != p@[j as int]);
            return false;
        }
        j = j + 1;
    }
    assert(s@.subrange(i as int, i + m) =~= p@);
    true
}

pub open spec fn starts_with(s: Seq<char>, p: Seq<char>) -> bool {
    occurs_at(s, p, 0)
}

/// Whether `s` begins with `p`, as `str::starts_with` tells.
pub fn starts_with_str(s: &str, p: &str) -> (r: bool)
    ensures
        r == starts_with(s@, p@),
{
    let n = s.unicode_len();
    let m = p.unicode_len();
    if m > n {
        false
    } else {
        occurs_at_exec(s, p, 0, n, m)
    }
}

/// The first position of `p` in `s`, as `str::find` gives it (counted in characters).
pub fn find_str(s: &str, p: &str) -> (r: Option<usize>)
    ensures
        match r {
            Some(i) => find(s@, p@) == i as int,
            None => find(s@, p@) == -1,
        },
{
    let n = s.unicode_len();
    let m = p.unicode_len();
    if m > n {
        return None;
    }
    if m == 0 {
        assert(s@.subrange(0, 0) =~= p@);
        return Some(0);
    }
    let mut i: usize = 0;
    while i <= n - m
        invariant
            n == s@.len(),
            m == p@.len(),
            0 < m <= n,
            i <= n - m + 1,
            find(s@, p@) == find_from(s@, p@, i as int),
        decreases n - m + 1 - i,
    {
        if occurs_at_exec(s, p, i, n, m) {
            return Some(i);
        }
        i = i + 1;
    }
    None
}

pub fn contains_str(s: &str, p: &str) -> (r: bool)
    ensures
        r == contains(s@, p@),
{
    find_str(s, p).is_some()
}

/// The pieces of `s` between the occurrences of `c`, as `str::split` gives them.
pub open spec fn pieces(s: Seq<char>, c: char) -> Seq<Seq<char>>
    decreases s.len(),
{
    if s.len() == 0 {
        seq![Seq::empty()]
    } else {
        let p = pieces(s.drop_last(), c);
        if s.last() == c {
            p.push(Seq::empty())
        } else {
            p.update(p.len() - 1, p.last().push(s.last()))
        }
    }
}

pub proof fn lemma_pieces_len(s: Seq<char>, c: char)
    ensures
        pieces(s, c).len() >= 1,
    decreases s.len(),
{
    if s.len() > 0 {
        lemma_pieces_len(s.drop_last(), c);
    }
}

pub open spec fn views(v: Seq<&str>) -> Seq<Seq<char>> {
    v.map_values(|x: &str| x@)
}

pub proof fn lemma_views_push(v: Seq<&str>, x: &str)
    ensures
        views(v.push(x)) == views(v).push(x@),
{
    assert(views(v.push(x)) =~= views(v).push(x@));
}

/// Splits `s` at each `c`, as `str::split` does.
pub fn split_char<'a>(s: &'a str, c: char) -> (r: Vec<&'a str>)
    ensures
        views(r@) == pieces(s@, c),
{
    let n = s.unicode_len();
    let mut out: Vec<&'a str> = Vec::new();
    let mut start: usize = 0;
    let mut i: usize = 0;
    assert(s@.subrange(0, 0) =~= Seq::<char>::empty());
    while i < n
        invariant
            n == s@.len(),
            start <= i <= n,
            pieces(s@.subrange(0, i as int), c).len() >= 1,
            views(out@) == pieces(s@.subrange(0, i as int), c).drop_last(),
            s@.subrange(start as int, i as int) == pieces(s@.subrange(0, i as int), c).last(),
        decreases n - i,
    {
        let ghost prev = pieces(s@.subrange(0, i as int), c);
        assert(s@.subrange(0, i + 1).drop_last() =~= s@.subrange(0, i as int));
        let ch = s.get_char(i);
        if ch == c {
            let piece = s.substring_char(start, i);
            proof {
                lemma_views_push(out@, piece);
            }
            out.push(piece);
            start = i + 1;
            assert(views(out@) =~= pieces(s@.subrange(0, i + 1), c).drop_last());
            assert(s@.subrange(start as int, i + 1) =~= Seq::<char>::empty());
        } else {
            assert(views(out@) =~= pieces(s@.subrange(0, i + 1), c).drop_last());
            assert(s@.subrange(start as int, i + 1) =~= prev.last().push(ch));
        }
        i = i + 1;
    }
    assert(s@.subrange(0, n as int) =~= s@);
    let piece = s.substring_char(start, n);
    proof {
        lemma_views_push(out@, piece);
    }
    out.push(piece);
    assert(views(out@) =~= pieces(s@, c));
    out
}

/// `s` without one trailing carriage return.
pub open spec fn strip_cr(s: Seq<char>) -> Seq<char> {
    if s.len() > 0 && s.last() == '\r' {
        s.drop_last()
    } else {
        s
    }
}

/// The lines of `s`, as `str::lines` gives them: split at line feeds, with a
/// carriage return before a line feed dropped and no empty line after a final
/// line feed.
pub open spec fn lines_of(s: Seq<char>) -> Seq<Seq<char>> {
    let p = pieces(s, '\n');
    let body = p.drop_last().map_values(|l: Seq<char>| strip_cr(l));
    if p.last().len() == 0 {
        body
    } else {
        body.push(p.last())
    }
}

fn strip_cr_str<'a>(s: &'a str) -> (r: &'a str)
    ensures
        r@ == strip_cr(s@),
{
    let n = s.unicode_len();
    if n > 0 && s.get_char(n - 1) == '\r' {
        s.substring_char(0, n - 1)
    } else {
        s
    }
}

/// The lines of `s`, as `str::lines` gives them.
pub fn lines<'a>(s: &'a str) -> (r: Vec<&'a str>)
    ensures
        views(r@) == lines_of(s@),
{
    let p = split_char(s, '\n');
    proof {
        lemma_pieces_len(s@, '\n');
    }
    let ghost pv = pieces(s@, '\n');
    let count = p.len() - 1;
    let mut out: Vec<&'a str> = Vec::new();
    let mut i: usize = 0;
    while i < count
        invariant
            count + 1 == p@.len(),
            views(p@) == pv,
            pv == pieces(s@, '\n'),
            i <= count,
            views(out@) =~= pv.subrange(0, i as int).map_values(|l: Seq<char>| strip_cr(l)),
        decreases count - i,
    {
        assert(p@[i as int]@ == pv[i as int]);
        let line = strip_cr_str(p[i]);
        proof {
            lemma_views_push(out@, line);
        }
        out.push(line);
        assert(views(out@) =~= pv.subrange(0, i + 1).map_values(|l: Seq<char>| strip_cr(l)));
        i = i + 1;
    }
    assert(pv.subrange(0, count as int) =~= pv.drop_last());
    let last = p[count];
    assert(last@ == pv.last());
    if last.unicode_len() > 0 {
        proof {
            lemma_views_push(out@, last);
        }
        out.push(last);
        assert(views(out@) =~= lines_of(s@));
    }
    out
}

/// `s` with every occurrence of `from` replaced by `to`, left to right, as
/// `str::replace` does for a non-empty `from`.
pub open spec fn replaced(s: Seq<char>, from: Seq<char>, to: Seq<char>) -> Seq<char>
    decreases s.len(),
{
    let k = find(s, from);
    if from.len() == 0 || k < 0 || k + from.len() > s.len() {
        s
    } else {
        s.subrange(0, k) + to + replaced(s.subrange(k + from.len(), s.len() as int), from, to)
    }
}

/// Replaces every occurrence of a non-empty `from` in `s` by `to`.
pub fn replace_str(s: &str, from: &str, to: &str) -> (r: String)
    requires
        from@.len() > 0,
    ensures
        r@ == replaced(s@, from@, to@),
{
    let mut out = String::new();
    let mut rest = s;
    let m = from.unicode_len();
    assert(out@ + replaced(rest@, from@, to@) =~= replaced(s@, from@, to@));
    loop
        invariant
            m == from@.len(),
            m > 0,
            out@ + replaced(rest@, from@, to@) == replaced(s@, from@, to@),
        decreases rest@.len(),
    {
        proof {
            lemma_find_from(rest@, from@, 0);
        }
        match find_str(rest, from) {
            Some(k) => {
                let n = rest.unicode_len();
                out.append(rest.substring_char(0, k));
                out.append(to);
                let ghost old_rest = rest@;
                rest = rest.substring_char(k + m, n);
                assert(out@ + replaced(rest@, from@, to@) =~= replaced(s@, from@, to@)) by {
                    assert(replaced(old_rest, from@, to@) == old_rest.subrange(0, k as int) + to@
                        + replaced(rest@, from@, to@));
                }
            },
            None => {
                out.append(rest);
                assert(out@ =~= replaced(s@, from@, to@));
                return out;
            },
        }
    }
}

} // verus!
