//! Operations on text: the character-level work behind the builtins.

use vstd::prelude::*;

verus! {

/// Relies on `String::push`: appends one character.
#[verifier::external_body]
pub(crate) fn push_char(s: &mut String, c: char)
    ensures
        final(s)@ == old(s)@.push(c),
{
    s.push(c);
}

/// Whether two texts are the same.
pub fn same_text(a: &str, b: &str) -> (r: bool)
    ensures
        r == (a@ == b@),
{
    let n = a.unicode_len();
    if n != b.unicode_len() {
        return false;
    }
    let mut i: usize = 0;
    while i < n
        invariant
            n == a@.len(),
            n == b@.len(),
            i <= n,
            a@.subrange(0, i as int) == b@.subrange(0, i as int),
        decreases n - i,
    {
        if a.get_char(i) != b.get_char(i) {
            assert(a@[i as int] != b@[i as int]);
            return false;
        }
        assert(a@.subrange(0, i + 1) == a@.subrange(0, i as int).push(a@[i as int]));
        assert(b@.subrange(0, i + 1) == b@.subrange(0, i as int).push(b@[i as int]));
        i = i + 1;
    }
    assert(a@ == a@.subrange(0, n as int));
    assert(b@ == b@.subrange(0, n as int));
    true
}

/// The decimal digit for a value below ten.
pub open spec fn digit_char(d: nat) -> char {
    if d == 0 { '0' }
    else if d == 1 { '1' }
    else if d == 2 { '2' }
    else if d == 3 { '3' }
    else if d == 4 { '4' }
    else if d == 5 { '5' }
    else if d == 6 { '6' }
    else if d == 7 { '7' }
    else if d == 8 { '8' }
    else { '9' }
}

/// The decimal spelling of a natural number, without leading zeros.
pub open spec fn decimal(n: nat) -> Seq<char>
    decreases n,
{
    if n < 10 {
        seq![digit_char(n)]
    } else {
        decimal(n / 10).push(digit_char(n % 10))
    }
}

fn digit(d: u128) -> (c: char)
    requires
        d < 10,
    ensures
        c == digit_char(d as nat),
{
    if d == 0 { '0' }
    else if d == 1 { '1' }
    else if d == 2 { '2' }
    else if d == 3 { '3' }
    else if d == 4 { '4' }
    else if d == 5 { '5' }
    else if d == 6 { '6' }
    else if d == 7 { '7' }
    else if d == 8 { '8' }
    else { '9' }
}

/// Appends the decimal spelling of `n` to `out`.
pub fn push_decimal(out: &mut String, n: u128)
    ensures
        final(out)@ == old(out)@ + decimal(n as nat),
    decreases n,
{
    if n < 10 {
        push_char(out, digit(n));
        assert(decimal(n as nat) == seq![digit_char(n as nat)]);
    } else {
        push_decimal(out, n / 10);
        push_char(out, digit(n % 10));
        assert(old(out)@ + decimal(n as nat) == old(out)@ + decimal((n / 10) as nat) + seq![
            digit_char((n % 10) as nat),
        ]);
    }
}

/// Unicode's White_Space property, as `char::is_whitespace` documents it.
pub open spec fn is_space(c: char) -> bool {
    ('\u{9}' <= c && c <= '\u{d}') || c == ' ' || c == '\u{85}' || c == '\u{a0}'
        || c == '\u{1680}' || ('\u{2000}' <= c && c <= '\u{200a}') || c == '\u{2028}'
        || c == '\u{2029}' || c == '\u{202f}' || c == '\u{205f}' || c == '\u{3000}'
}

pub fn is_whitespace(c: char) -> (r: bool)
    ensures
        r == is_space(c),
{
    ('\u{9}' <= c && c <= '\u{d}') || c == ' ' || c == '\u{85}' || c == '\u{a0}'
        || c == '\u{1680}' || ('\u{2000}' <= c && c <= '\u{200a}') || c == '\u{2028}'
        || c == '\u{2029}' || c == '\u{202f}' || c == '\u{205f}' || c == '\u{3000}'
}

/// The first position at or after `i` that does not hold whitespace.
pub open spec fn space_end(s: Seq<char>, i: int) -> int
    decreases s.len() - i,
{
    if 0 <= i < s.len() && is_space(s[i]) {
        space_end(s, i + 1)
    } else {
        i
    }
}

pub proof fn lemma_space_end(s: Seq<char>, i: int)
    requires
        0 <= i <= s.len(),
    ensures
        i <= space_end(s, i) <= s.len(),
    decreases s.len() - i,
{
    if i < s.len() && is_space(s[i]) {
        lemma_space_end(s, i + 1);
    }
}

/// `s` from position `i` on, with each newline and the whitespace right
/// after it replaced by `r`.
pub open spec fn collapse_from(s: Seq<char>, i: int, r: Seq<char>) -> Seq<char>
    decreases s.len() - i,
    via collapse_from_decreases
{
    if i < 0 || i >= s.len() {
        Seq::empty()
    } else if s[i] != '\n' {
        seq![s[i]] + collapse_from(s, i + 1, r)
    } else {
        r + collapse_from(s, space_end(s, i + 1), r)
    }
}

#[via_fn]
proof fn collapse_from_decreases(s: Seq<char>, i: int, r: Seq<char>) {
    if 0 <= i < s.len() && s[i] == '\n' {
        lemma_space_end(s, i + 1);
    }
}

/// `s` with each newline and the whitespace right after it replaced by `r`.
pub open spec fn collapse_newlines(s: Seq<char>, r: Seq<char>) -> Seq<char> {
    collapse_from(s, 0, r)
}

/// Replaces each newline of `s`, with the whitespace right after it, by `r`.
pub fn collapse_newlines_exec(s: &str, r: &str) -> (out: String)
    ensures
        out@ == collapse_newlines(s@, r@),
{
    let n = s.unicode_len();
    let mut out = String::new();
    let mut i: usize = 0;
    while i < n
        invariant
            n == s@.len(),
            i <= n,
            out@ + collapse_from(s@, i as int, r@) == collapse_newlines(s@, r@),
        decreases n - i,
    {
        let c = s.get_char(i);
        if c != '\n' {
            push_char(&mut out, c);
            assert(collapse_from(s@, i as int, r@) == seq![c] + collapse_from(s@, i + 1, r@));
            assert(out@ + collapse_from(s@, i + 1, r@) == collapse_newlines(s@, r@));
            i = i + 1;
        } else {
            assert(collapse_from(s@, i as int, r@) == r@ + collapse_from(
                s@,
                space_end(s@, i + 1),
                r@,
            ));
            out.append(r);
            i = i + 1;
            let ghost start = i as int;
            while i < n && is_whitespace(s.get_char(i))
                invariant
                    n == s@.len(),
                    start <= i <= n,
                    space_end(s@, i as int) == space_end(s@, start),
                decreases n - i,
            {
                i = i + 1;
            }
            assert(space_end(s@, i as int) == i);
            assert(out@ + collapse_from(s@, i as int, r@) == collapse_newlines(s@, r@));
        }
    }
    assert(collapse_from(s@, i as int, r@) == Seq::<char>::empty());
    assert(out@ == out@ + Seq::<char>::empty());
    out
}

/// Whether `f` occurs in `s` at position `i`.
pub open spec fn occurs_at(s: Seq<char>, f: Seq<char>, i: int) -> bool {
    0 <= i && i + f.len() <= s.len() && s.subrange(i, i + f.len()) == f
}

/// Whether `f` occurs anywhere in `s`.
pub open spec fn contains(s: Seq<char>, f: Seq<char>) -> bool {
    exists|i: int| occurs_at(s, f, i)
}

/// `s` from position `i` on, with each occurrence of `f`, leftmost first and
/// not overlapping, replaced by `t`. An empty `f` occurs before every
/// character and at the end.
pub open spec fn replace_from(s: Seq<char>, i: int, f: Seq<char>, t: Seq<char>) -> Seq<char>
    decreases s.len() + 1 - i,
{
    if i < 0 || i > s.len() {
        Seq::empty()
    } else if f.len() == 0 {
        if i == s.len() {
            t
        } else {
            t + seq![s[i]] + replace_from(s, i + 1, f, t)
        }
    } else if i + f.len() > s.len() {
        s.subrange(i, s.len() as int)
    } else if s.subrange(i, i + f.len()) == f {
        t + replace_from(s, i + f.len(), f, t)
    } else {
        seq![s[i]] + replace_from(s, i + 1, f, t)
    }
}

/// `s` with each occurrence of `f`, leftmost first and not overlapping,
/// replaced by `t`.
pub open spec fn replace_all(s: Seq<char>, f: Seq<char>, t: Seq<char>) -> Seq<char> {
    replace_from(s, 0, f, t)
}

/// Whether `f` occurs in `s` at position `i`.
fn occurs_at_exec(s: &str, n: usize, f: &str, m: usize, i: usize) -> (r: bool)
    requires
        n == s@.len(),
        m == f@.len(),
        i <= n,
    ensures
        r == occurs_at(s@, f@, i as int),
{
    if m > n - i {
        return false;
    }
    let mut k: usize = 0;
    while k < m
        invariant
            n == s@.len(),
            m == f@.len(),
            i + m <= n,
            k <= m,
            s@.subrange(i as int, i + k) == f@.subrange(0, k as int),
        decreases m - k,
    {
        if s.get_char(i + k) != f.get_char(k) {
            assert(s@.subrange(i as int, i + m)[k as int] != f@[k as int]);
            return false;
        }
        assert(s@.subrange(i as int, i + k + 1) == s@.subrange(i as int, i + k).push(s@[i + k]));
        assert(f@.subrange(0, k + 1) == f@.subrange(0, k as int).push(f@[k as int]));
        k = k + 1;
    }
    assert(f@.subrange(0, m as int) == f@);
    true
}

/// Replaces each occurrence of `f` in `s`, leftmost first and not
/// overlapping, by `t`.
pub fn replace_all_exec(s: &str, f: &str, t: &str) -> (out: String)
    ensures
        out@ == replace_all(s@, f@, t@),
{
    let n = s.unicode_len();
    let m = f.unicode_len();
    let mut out = String::new();
    let mut i: usize = 0;
    while i < n
        invariant
            n == s@.len(),
            m == f@.len(),
            i <= n,
            out@ + replace_from(s@, i as int, f@, t@) == replace_all(s@, f@, t@),
        decreases n - i,
    {
        if m == 0 {
            out.append(t);
            let c = s.get_char(i);
            push_char(&mut out, c);
            assert(replace_from(s@, i as int, f@, t@) == t@ + seq![c] + replace_from(
                s@,
                i + 1,
                f@,
                t@,
            ));
            i = i + 1;
        } else if m > n - i {
            let ghost rest = s@.subrange(i as int, n as int);
            while i < n
                invariant
                    n == s@.len(),
                    i <= n,
                    out@ + s@.subrange(i as int, n as int) == replace_all(s@, f@, t@),
                decreases n - i,
            {
                let c = s.get_char(i);
                push_char(&mut out, c);
                assert(s@.subrange(i as int, n as int) == seq![c] + s@.subrange(i + 1, n as int));
                i = i + 1;
            }
            assert(s@.subrange(n as int, n as int) == Seq::<char>::empty());
            assert(out@ == out@ + Seq::<char>::empty());
            return out;
        } else if occurs_at_exec(s, n, f, m, i) {
            out.append(t);
            i = i + m;
        } else {
            let c = s.get_char(i);
            push_char(&mut out, c);
            i = i + 1;
        }
    }
    if m == 0 {
        out.append(t);
    } else {
        assert(s@.subrange(n as int, n as int) == Seq::<char>::empty());
        assert(out@ == out@ + Seq::<char>::empty());
    }
    out
}

/// Where `f` does not occur in `s`, replacing it leaves `s` as it is.
pub proof fn lemma_replace_absent(s: Seq<char>, f: Seq<char>, t: Seq<char>)
    requires
        !contains(s, f),
    ensures
        replace_all(s, f, t) == s,
{
    lemma_replace_absent_from(s, f, t, 0);
    assert(s.subrange(0, s.len() as int) == s);
}

proof fn lemma_replace_absent_from(s: Seq<char>, f: Seq<char>, t: Seq<char>, i: int)
    requires
        !contains(s, f),
        0 <= i <= s.len(),
    ensures
        replace_from(s, i, f, t) == s.subrange(i, s.len() as int),
    decreases s.len() + 1 - i,
{
    if f.len() == 0 {
        assert(s.subrange(i, i) == f);
        assert(occurs_at(s, f, i));
    } else if i + f.len() > s.len() {
    } else {
        assert(!occurs_at(s, f, i));
        lemma_replace_absent_from(s, f, t, i + 1);
        assert(s.subrange(i, s.len() as int) == seq![s[i]] + s.subrange(i + 1, s.len() as int));
    }
}

} // verus!
