//! Character-level helpers shared by the rest of the library: conversion
//! between strings and character vectors, splitting and joining on a
//! separator, substring search, decimal rendering and trimming.
use vstd::prelude::*;

verus! {

// ---------------------------------------------------------------------
// Specifications
// ---------------------------------------------------------------------

/// Rust's `str::split(sep)` on a character sequence: `n` separators give
/// `n + 1` (possibly empty) parts.
pub open spec fn split_on(s: Seq<char>, sep: char) -> Seq<Seq<char>>
    decreases s.len(),
{
    if s.len() == 0 {
        seq![Seq::<char>::empty()]
    } else {
        let parts = split_on(s.drop_last(), sep);
        if s.last() == sep {
            parts.push(Seq::<char>::empty())
        } else {
            parts.update(parts.len() - 1, parts.last().push(s.last()))
        }
    }
}

/// The character sequences held by a vector of character vectors.
pub open spec fn parts_view(parts: Seq<Vec<char>>) -> Seq<Seq<char>> {
    parts.map_values(|v: Vec<char>| v@)
}

/// Rust's `join(sep)` on a sequence of parts.
pub open spec fn join_with(parts: Seq<Seq<char>>, sep: char) -> Seq<char>
    decreases parts.len(),
{
    if parts.len() == 0 {
        Seq::<char>::empty()
    } else if parts.len() == 1 {
        parts[0]
    } else {
        join_with(parts.drop_last(), sep).push(sep) + parts.last()
    }
}

/// `pat` occurs in `s` starting at index `i`.
pub open spec fn occurs_at(s: Seq<char>, pat: Seq<char>, i: int) -> bool {
    &&& 0 <= i
    &&& i + pat.len() <= s.len()
    &&& s.subrange(i, i + pat.len()) == pat
}

/// The first index at or after `from` where `pat` occurs in `s`.
pub open spec fn first_occurrence(s: Seq<char>, pat: Seq<char>, from: int) -> Option<int>
    decreases s.len() - from,
{
    if from < 0 || from + pat.len() > s.len() {
        None
    } else if occurs_at(s, pat, from) {
        Some(from)
    } else if from >= s.len() {
        None
    } else {
        first_occurrence(s, pat, from + 1)
    }
}

/// The character of a decimal digit.
pub open spec fn digit_char(d: nat) -> char {
    if d == 0 { '0' }
    else if d == 1 { '1' }
    else if d == 2 { '2' }
    else if d == 3 { '3' }
    else if d == 4 { '4' }
    else if d == 5 { '5' }
    else if d == 6 { '6' }
    else if d == 7 { '7' }
    else if d == 8 { '8' }
    else { '9' }
}

/// Base-10 rendering of a natural number, as `format!("{}", n)` prints it.
pub open spec fn decimal(n: nat) -> Seq<char>
    decreases n,
{
    if n < 10 {
        seq![digit_char(n)]
    } else {
        decimal(n / 10).push(digit_char(n % 10))
    }
}

/// Base-8 digits of a natural number, without padding.
pub open spec fn octal(n: nat) -> Seq<char>
    decreases n,
{
    if n < 8 {
        seq![digit_char(n)]
    } else {
        octal(n / 8).push(digit_char(n % 8))
    }
}

/// `format!("{:04o}", n)`: octal digits left-padded with zeros to width 4.
pub open spec fn octal_padded4(n: nat) -> Seq<char> {
    let digits = octal(n);
    if digits.len() >= 4 {
        digits
    } else {
        Seq::new((4 - digits.len()) as nat, |i: int| '0') + digits
    }
}

/// Unicode `White_Space`, the property that `str::trim` strips.
pub open spec fn is_white_space(c: char) -> bool {
    let u = c as u32;
    ||| 0x9 <= u <= 0xD
    ||| u == 0x20
    ||| u == 0x85
    ||| u == 0xA0
    ||| u == 0x1680
    ||| 0x2000 <= u <= 0x200A
    ||| u == 0x2028
    ||| u == 0x2029
    ||| u == 0x202F
    ||| u == 0x205F
    ||| u == 0x3000
}

pub open spec fn trim_start(s: Seq<char>) -> Seq<char>
    decreases s.len(),
{
    if s.len() > 0 && is_white_space(s[0]) {
        trim_start(s.drop_first())
    } else {
        s
    }
}

pub open spec fn trim_end(s: Seq<char>) -> Seq<char>
    decreases s.len(),
{
    if s.len() > 0 && is_white_space(s.last()) {
        trim_end(s.drop_last())
    } else {
        s
    }
}

/// `s` without leading and trailing Unicode white space.
pub open spec fn trimmed(s: Seq<char>) -> Seq<char> {
    trim_end(trim_start(s))
}

/// Lexicographic order on character sequences by code point, which is the
/// order `Ord` gives `str` (UTF-8 preserves code point order).
pub open spec fn seq_lt(a: Seq<char>, b: Seq<char>) -> bool
    decreases a.len(),
{
    if a.len() == 0 {
        b.len() > 0
    } else if b.len() == 0 {
        false
    } else if a[0] != b[0] {
        (a[0] as int) < (b[0] as int)
    } else {
        seq_lt(a.drop_first(), b.drop_first())
    }
}

/// The value of a run of ASCII decimal digits read left to right, or
/// `None` when a character is not a digit (an empty run reads as zero).
pub open spec fn digits_value_chars(s: Seq<char>) -> Option<int>
    decreases s.len(),
{
    if s.len() == 0 {
        Some(0)
    } else {
        match digits_value_chars(s.drop_last()) {
            Some(v) => if 48 <= (s.last() as int) <= 57 {
                Some(v * 10 + (s.last() as int - 48))
            } else {
                None
            },
            None => None,
        }
    }
}

// ---------------------------------------------------------------------
// Lemmas
// ---------------------------------------------------------------------

/// Once a prefix of a run fails to read as digits, every longer prefix fails.
pub proof fn lemma_digit_chars_none_extends(b: Seq<char>, lo: int, mid: int, hi: int)
    requires
        0 <= lo <= mid <= hi <= b.len(),
        digits_value_chars(b.subrange(lo, mid)) is None,
    ensures
        digits_value_chars(b.subrange(lo, hi)) is None,
    decreases hi - mid,
{
    if mid < hi {
        let next = b.subrange(lo, mid + 1);
        assert(next.drop_last() =~= b.subrange(lo, mid));
        lemma_digit_chars_none_extends(b, lo, mid + 1, hi);
    }
}

/// Reading more digits never makes the value smaller.
pub proof fn lemma_digit_chars_grow(b: Seq<char>, lo: int, mid: int, hi: int, v: int)
    requires
        0 <= lo <= mid <= hi <= b.len(),
        digits_value_chars(b.subrange(lo, mid)) == Some(v),
        v >= 0,
    ensures
        digits_value_chars(b.subrange(lo, hi)) matches Some(w) ==> w >= v,
    decreases hi - mid,
{
    if mid < hi {
        let next = b.subrange(lo, mid + 1);
        assert(next.drop_last() =~= b.subrange(lo, mid));
        match digits_value_chars(next) {
            Some(w) => {
                assert(w >= v * 10) by (nonlinear_arith)
                    requires w == v * 10 + (next.last() as int - 48), 48 <= next.last() as int, v >= 0;
                assert(w >= v) by (nonlinear_arith)
                    requires w >= v * 10, v >= 0;
                lemma_digit_chars_grow(b, lo, mid + 1, hi, w);
            },
            None => {
                lemma_digit_chars_none_extends(b, lo, mid + 1, hi);
            },
        }
    }
}

pub proof fn lemma_seq_lt_trichotomy(a: Seq<char>, b: Seq<char>)
    ensures
        seq_lt(a, b) || seq_lt(b, a) || a == b,
        !(seq_lt(a, b) && seq_lt(b, a)),
    decreases a.len(),
{
    if a.len() > 0 && b.len() > 0 {
        if a[0] == b[0] {
            lemma_seq_lt_trichotomy(a.drop_first(), b.drop_first());
            if a.drop_first() == b.drop_first() {
                assert(a =~= seq![a[0]] + a.drop_first());
                assert(b =~= seq![b[0]] + b.drop_first());
            }
        }
    } else if a.len() == 0 && b.len() == 0 {
        assert(a =~= b);
    }
}

pub proof fn lemma_seq_lt_transitive(a: Seq<char>, b: Seq<char>, c: Seq<char>)
    requires
        seq_lt(a, b),
        seq_lt(b, c),
    ensures
        seq_lt(a, c),
    decreases a.len(),
{
    if a.len() > 0 && b.len() > 0 && c.len() > 0 {
        if a[0] == b[0] && b[0] == c[0] {
            lemma_seq_lt_transitive(a.drop_first(), b.drop_first(), c.drop_first());
        }
    }
}

// ---------------------------------------------------------------------
// Trusted std calls
// ---------------------------------------------------------------------

/// `String::push`: appends one character to the end of the string.
#[verifier::external_body]
pub(crate) fn push_char(s: &mut String, c: char)
    ensures
        final(s)@ == old(s)@.push(c),
{
    s.push(c);
}

/// `str::trim`: the slice without leading and trailing `White_Space`
/// characters, as std documents it.
#[verifier::external_body]
pub(crate) fn trim_str(s: &str) -> (out: &str)
    ensures
        out@ == trimmed(s@),
{
    s.trim()
}

// ---------------------------------------------------------------------
// Executable helpers
// ---------------------------------------------------------------------

/// The characters of `s`, in order.
pub fn chars_of(s: &str) -> (out: Vec<char>)
    ensures
        out@ == s@,
{
    let mut out: Vec<char> = Vec::new();
    for c in it: s.chars()
        invariant
            out@ == it.seq().take(it.index() as int),
    {
        out.push(c);
    }
    out
}

/// Appends the characters of `v` to `out`.
pub fn push_chars(out: &mut String, v: &Vec<char>)
    ensures
        final(out)@ == old(out)@ + v@,
{
    let ghost start = out@;
    let mut i: usize = 0;
    while i < v.len()
        invariant
            i <= v.len(),
            out@ == start + v@.take(i as int),
        decreases v.len() - i,
    {
        push_char(out, v[i]);
        i = i + 1;
        assert(v@.take(i as int) =~= v@.take((i - 1) as int).push(v@[i - 1]));
    }
    assert(v@.take(v.len() as int) =~= v@);
}

/// A string holding exactly the characters of `v`.
pub fn string_of(v: &Vec<char>) -> (out: String)
    ensures
        out@ == v@,
{
    let mut out = String::new();
    push_chars(&mut out, v);
    assert(Seq::<char>::empty() + v@ =~= v@);
    out
}

/// A string holding the characters of `s`.
pub fn owned(s: &str) -> (out: String)
    ensures
        out@ == s@,
{
    s.to_owned()
}

/// Appends a string slice.
pub fn push_str(out: &mut String, s: &str)
    ensures
        final(out)@ == old(out)@ + s@,
{
    let v = chars_of(s);
    push_chars(out, &v);
}

/// Equality of two character vectors.
pub fn chars_eq(a: &Vec<char>, b: &Vec<char>) -> (eq: bool)
    ensures
        eq == (a@ == b@),
{
    if a.len() != b.len() {
        return false;
    }
    let mut i: usize = 0;
    while i < a.len()
        invariant
            a.len() == b.len(),
            i <= a.len(),
            forall|k: int| 0 <= k < i ==> a@[k] == b@[k],
        decreases a.len() - i,
    {
        if a[i] != b[i] {
            return false;
        }
        i = i + 1;
    }
    assert(a@ =~= b@);
    true
}

/// Equality of two string slices.
pub fn str_eq(a: &str, b: &str) -> (eq: bool)
    ensures
        eq == (a@ == b@),
{
    let va = chars_of(a);
    let vb = chars_of(b);
    chars_eq(&va, &vb)
}

/// Equality of two strings.
pub fn string_eq(a: &String, b: &String) -> (eq: bool)
    ensures
        eq == (a@ == b@),
{
    a.eq(b)
}

/// Equality of two optional strings.
pub fn opt_string_eq(a: &Option<String>, b: &Option<String>) -> (eq: bool)
    ensures
        eq == (a.deep_view() == b.deep_view()),
{
    match (a, b) {
        (Some(x), Some(y)) => string_eq(x, y),
        (None, None) => true,
        _ => false,
    }
}

/// A copy of an optional string.
pub fn clone_opt_string(a: &Option<String>) -> (out: Option<String>)
    ensures
        out.deep_view() == a.deep_view(),
{
    match a {
        Some(x) => Some(x.clone()),
        None => None,
    }
}

/// Does `pat` occur in `s` at index `i`?
pub fn occurs_at_exec(s: &Vec<char>, pat: &Vec<char>, i: usize) -> (found: bool)
    ensures
        found == occurs_at(s@, pat@, i as int),
{
    if i > s.len() || pat.len() > s.len() - i {
        return false;
    }
    let mut k: usize = 0;
    while k < pat.len()
        invariant
            i + pat.len() <= s.len(),
            k <= pat.len(),
            forall|j: int| 0 <= j < k ==> s@[i + j] == pat@[j],
        decreases pat.len() - k,
    {
        if s[i + k] != pat[k] {
            assert(s@.subrange(i as int, i + pat.len())[k as int] != pat@[k as int]);
            return false;
        }
        k = k + 1;
    }
    assert(s@.subrange(i as int, i + pat.len()) =~= pat@);
    true
}

/// A first occurrence found from `from` is an occurrence at or after `from`.
pub proof fn lemma_first_occurrence_occurs(s: Seq<char>, pat: Seq<char>, from: int)
    ensures
        first_occurrence(s, pat, from) matches Some(i) ==> from <= i && occurs_at(s, pat, i),
    decreases s.len() - from,
{
    if from >= 0 && from + pat.len() <= s.len() && !occurs_at(s, pat, from) && from < s.len() {
        lemma_first_occurrence_occurs(s, pat, from + 1);
    }
}

/// The first index where `pat` occurs in `s`.
pub fn find_first(s: &Vec<char>, pat: &Vec<char>) -> (idx: Option<usize>)
    ensures
        idx matches Some(i) ==> first_occurrence(s@, pat@, 0) == Some(i as int),
        idx matches Some(i) ==> occurs_at(s@, pat@, i as int),
        idx is None ==> first_occurrence(s@, pat@, 0) is None,
{
    if pat.len() > s.len() {
        return None;
    }
    let last = s.len() - pat.len();
    let mut i: usize = 0;
    while i <= last
        invariant
            last == s.len() - pat.len(),
            i <= last + 1,
            first_occurrence(s@, pat@, 0) == first_occurrence(s@, pat@, i as int),
        decreases last + 1 - i,
    {
        if occurs_at_exec(s, pat, i) {
            proof {
                lemma_first_occurrence_occurs(s@, pat@, 0);
            }
            return Some(i);
        }
        if i == last {
            assert(first_occurrence(s@, pat@, i + 1) is None);
            return None;
        }
        i = i + 1;
    }
    None
}

/// The characters of `v` from index `start` on.
pub fn suffix_from(v: &Vec<char>, start: usize) -> (out: Vec<char>)
    requires
        start <= v.len(),
    ensures
        out@ == v@.subrange(start as int, v.len() as int),
{
    let mut out: Vec<char> = Vec::new();
    let mut i: usize = start;
    while i < v.len()
        invariant
            start <= i <= v.len(),
            out@ == v@.subrange(start as int, i as int),
        decreases v.len() - i,
    {
        out.push(v[i]);
        i = i + 1;
        assert(out@ =~= v@.subrange(start as int, i as int));
    }
    out
}

/// `split(sep)` on a character vector.
pub fn split_chars(s: &Vec<char>, sep: char) -> (parts: Vec<Vec<char>>)
    ensures
        parts_view(parts@) == split_on(s@, sep),
{
    let mut done: Vec<Vec<char>> = Vec::new();
    let mut cur: Vec<char> = Vec::new();
    let mut i: usize = 0;
    while i < s.len()
        invariant
            i <= s.len(),
            split_on(s@.take(i as int), sep) == parts_view(done@).push(cur@),
        decreases s.len() - i,
    {
        let c = s[i];
        let ghost prev_done = parts_view(done@);
        let ghost prev_cur = cur@;
        assert(s@.take(i + 1).drop_last() =~= s@.take(i as int));
        if c == sep {
            let finished = cur;
            done.push(finished);
            cur = Vec::new();
            assert(parts_view(done@) =~= prev_done.push(prev_cur));
            assert(split_on(s@.take(i + 1), sep) =~= parts_view(done@).push(cur@));
        } else {
            cur.push(c);
            assert(split_on(s@.take(i + 1), sep) =~= prev_done.push(prev_cur).update(
                prev_done.len() as int,
                prev_cur.push(c),
            ));
            assert(split_on(s@.take(i + 1), sep) =~= parts_view(done@).push(cur@));
        }
        i = i + 1;
    }
    assert(s@.take(s.len() as int) =~= s@);
    let ghost before = parts_view(done@);
    done.push(cur);
    assert(parts_view(done@) =~= before.push(cur@));
    done
}

/// `parts[start..].join(sep)`.
pub fn join_from(parts: &Vec<Vec<char>>, start: usize, sep: char) -> (out: Vec<char>)
    requires
        start < parts.len(),
    ensures
        out@ == join_with(parts_view(parts@).subrange(start as int, parts.len() as int), sep),
{
    let mut out: Vec<char> = Vec::new();
    let first = &parts[start];
    let mut k: usize = 0;
    while k < first.len()
        invariant
            k <= first.len(),
            out@ == first@.take(k as int),
        decreases first.len() - k,
    {
        out.push(first[k]);
        k = k + 1;
        assert(out@ =~= first@.take(k as int));
    }
    assert(first@.take(first.len() as int) =~= first@);
    assert(parts_view(parts@).subrange(start as int, start + 1) =~= seq![first@]);
    let mut i: usize = start + 1;
    while i < parts.len()
        invariant
            start < i <= parts.len(),
            out@ == join_with(parts_view(parts@).subrange(start as int, i as int), sep),
        decreases parts.len() - i,
    {
        out.push(sep);
        let part = &parts[i];
        let ghost before = out@;
        let mut k: usize = 0;
        while k < part.len()
            invariant
                k <= part.len(),
                out@ == before + part@.take(k as int),
            decreases part.len() - k,
        {
            out.push(part[k]);
            k = k + 1;
            assert(out@ =~= before + part@.take(k as int));
        }
        assert(part@.take(part.len() as int) =~= part@);
        let ghost sub = parts_view(parts@).subrange(start as int, i + 1);
        assert(sub.drop_last() =~= parts_view(parts@).subrange(start as int, i as int));
        assert(sub.last() == part@);
        i = i + 1;
    }
    out
}

/// Appends the decimal rendering of `n`.
pub fn push_decimal(out: &mut String, n: u64)
    ensures
        final(out)@ == old(out)@ + decimal(n as nat),
    decreases n,
{
    if n >= 10 {
        push_decimal(out, n / 10);
    }
    let d = n % 10;
    let c = if d == 0 { '0' }
        else if d == 1 { '1' }
        else if d == 2 { '2' }
        else if d == 3 { '3' }
        else if d == 4 { '4' }
        else if d == 5 { '5' }
        else if d == 6 { '6' }
        else if d == 7 { '7' }
        else if d == 8 { '8' }
        else { '9' };
    push_char(out, c);
}

/// Appends the octal digits of `n`.
fn push_octal(out: &mut String, n: u32)
    ensures
        final(out)@ == old(out)@ + octal(n as nat),
    decreases n,
{
    if n >= 8 {
        push_octal(out, n / 8);
    }
    let d = n % 8;
    let c = if d == 0 { '0' }
        else if d == 1 { '1' }
        else if d == 2 { '2' }
        else if d == 3 { '3' }
        else if d == 4 { '4' }
        else if d == 5 { '5' }
        else if d == 6 { '6' }
        else { '7' };
    push_char(out, c);
}

proof fn lemma_octal_len(n: nat)
    ensures
        octal(n).len() >= 1,
        n < 8 ==> octal(n).len() == 1,
        n < 64 ==> octal(n).len() <= 2,
        n < 512 ==> octal(n).len() <= 3,
    decreases n,
{
    if n >= 8 {
        lemma_octal_len(n / 8);
    }
}

/// Appends `format!("{:04o}", n)`.
pub fn push_octal_padded4(out: &mut String, n: u32)
    ensures
        final(out)@ == old(out)@ + octal_padded4(n as nat),
{
    let ghost start = out@;
    proof {
        lemma_octal_len(n as nat);
    }
    let pad: usize = if n < 8 { 3 } else if n < 64 { 2 } else if n < 512 { 1 } else { 0 };
    proof {
        if n >= 512 {
            assert(octal(n as nat).len() >= 4) by {
                reveal_with_fuel(octal, 4);
                lemma_octal_len((n / 8) as nat);
                lemma_octal_len((n / 64) as nat);
                lemma_octal_len((n / 512) as nat);
            }
        } else if n >= 64 {
            assert(octal(n as nat).len() == 3) by {
                reveal_with_fuel(octal, 3);
            }
        } else if n >= 8 {
            assert(octal(n as nat).len() == 2) by {
                reveal_with_fuel(octal, 2);
            }
        }
    }
    let mut k: usize = 0;
    while k < pad
        invariant
            k <= pad,
            out@ == start + Seq::new(k as nat, |i: int| '0'),
        decreases pad - k,
    {
        push_char(out, '0');
        k = k + 1;
        assert(out@ =~= start + Seq::new(k as nat, |i: int| '0'));
    }
    push_octal(out, n);
    assert(out@ =~= start + octal_padded4(n as nat));
}

/// Strict lexicographic comparison of two strings by code point.
pub fn str_lt(a: &str, b: &str) -> (lt: bool)
    ensures
        lt == seq_lt(a@, b@),
{
    let va = chars_of(a);
    let vb = chars_of(b);
    let mut i: usize = 0;
    assert(va@.skip(0) =~= va@);
    assert(vb@.skip(0) =~= vb@);
    while i < va.len() && i < vb.len()
        invariant
            i <= va.len(),
            i <= vb.len(),
            va@ == a@,
            vb@ == b@,
            seq_lt(va@, vb@) == seq_lt(va@.skip(i as int), vb@.skip(i as int)),
        decreases va.len() - i,
    {
        assert(va@.skip(i as int).drop_first() =~= va@.skip(i + 1));
        assert(vb@.skip(i as int).drop_first() =~= vb@.skip(i + 1));
        assert(va@.skip(i as int)[0] == va@[i as int]);
        assert(vb@.skip(i as int)[0] == vb@[i as int]);
        if va[i] != vb[i] {
            return va[i] < vb[i];
        }
        i = i + 1;
    }
    i == va.len() && i < vb.len()
}

} // verus!
