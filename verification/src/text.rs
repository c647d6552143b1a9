//! Text as sequences of characters: conversion from and to strings, and the
//! searches, cuts and replacements that paths and reference pointers need.

use vstd::prelude::*;

verus! {

/// The texts of a sequence of strings.
pub open spec fn texts(strings: Seq<String>) -> Seq<Seq<char>> {
    Seq::new(strings.len(), |i: int| strings[i]@)
}

/// `p` stands in `s` at index `at`.
pub open spec fn occurs_at(s: Seq<char>, p: Seq<char>, at: int) -> bool {
    0 <= at && at + p.len() <= s.len() && s.subrange(at, at + p.len()) == p
}

/// `s` begins with `p`.
pub open spec fn starts_with(s: Seq<char>, p: Seq<char>) -> bool {
    occurs_at(s, p, 0)
}

/// `s` ends with `p`.
pub open spec fn ends_with(s: Seq<char>, p: Seq<char>) -> bool {
    occurs_at(s, p, s.len() - p.len())
}

/// `p` stands somewhere in `s`.
pub open spec fn contains(s: Seq<char>, p: Seq<char>) -> bool {
    exists|at: int| occurs_at(s, p, at)
}

/// The least index from `from` on at which `s` holds `c`; the length of `s`
/// where there is none.
pub open spec fn position_from(s: Seq<char>, c: char, from: int) -> int
    decreases s.len() - from,
{
    if from < 0 || from >= s.len() {
        s.len() as int
    } else if s[from] == c {
        from
    } else {
        position_from(s, c, from + 1)
    }
}

/// The index of the first `c` in `s`; the length of `s` where there is none.
pub open spec fn position(s: Seq<char>, c: char) -> int {
    position_from(s, c, 0)
}

/// The index of the last `c` in `s` before `end`; `-1` where there is none.
pub open spec fn last_position_before(s: Seq<char>, c: char, end: int) -> int
    decreases end,
{
    if end <= 0 || end > s.len() {
        -1
    } else if s[end - 1] == c {
        end - 1
    } else {
        last_position_before(s, c, end - 1)
    }
}

/// The part of `s` before its first `c`; all of `s` where it holds none.
pub open spec fn before(s: Seq<char>, c: char) -> Seq<char> {
    s.take(position(s, c))
}

/// The part of `s` after its first `c`, if it holds one.
pub open spec fn after(s: Seq<char>, c: char) -> Option<Seq<char>> {
    if position(s, c) < s.len() {
        Some(s.skip(position(s, c) + 1))
    } else {
        None
    }
}

/// The index at which `s` goes on once every leading repetition of `p`, from
/// `at` on, is passed.
pub open spec fn leading_end(s: Seq<char>, p: Seq<char>, at: int) -> int
    decreases s.len() - at,
{
    if p.len() > 0 && occurs_at(s, p, at) {
        leading_end(s, p, at + p.len())
    } else {
        at
    }
}

/// `s` without the repetitions of `p` that it begins with.
pub open spec fn trim_start(s: Seq<char>, p: Seq<char>) -> Seq<char> {
    s.skip(leading_end(s, p, 0))
}

/// `s` from index `at` on, with every occurrence of `from` replaced by `to`,
/// taken from the left and never overlapping. An empty `from` occurs nowhere.
pub open spec fn replaced_from(s: Seq<char>, from: Seq<char>, to: Seq<char>, at: int) -> Seq<char>
    decreases s.len() - at,
{
    if at < 0 || at >= s.len() {
        Seq::empty()
    } else if from.len() > 0 && occurs_at(s, from, at) {
        to + replaced_from(s, from, to, at + from.len())
    } else {
        seq![s[at]] + replaced_from(s, from, to, at + 1)
    }
}

/// `s` with every occurrence of `from` replaced by `to`.
pub open spec fn replaced(s: Seq<char>, from: Seq<char>, to: Seq<char>) -> Seq<char> {
    replaced_from(s, from, to, 0)
}

/// The first `n` characters of `s`, each `from` among them turned into `to`.
pub open spec fn swapped_upto(s: Seq<char>, from: char, to: char, n: nat) -> Seq<char>
    decreases n,
{
    if n == 0 || n > s.len() {
        Seq::empty()
    } else {
        swapped_upto(s, from, to, (n - 1) as nat).push(
            if s[n - 1] == from {
                to
            } else {
                s[n - 1]
            },
        )
    }
}

/// `s` with each character `from` turned into `to`.
pub open spec fn swapped(s: Seq<char>, from: char, to: char) -> Seq<char> {
    swapped_upto(s, from, to, s.len())
}

/// `String::push`: appends one character to the string.
#[verifier::external_body]
fn push_char(s: &mut String, c: char)
    ensures
        final(s)@ == old(s)@.push(c),
{
    s.push(c)
}

/// The characters of `s`, in order.
pub fn chars_of(s: &str) -> (out: Vec<char>)
    ensures
        out@ == s@,
{
    let mut out: Vec<char> = Vec::new();
    for c in it: s.chars()
        invariant
            out@ == it.seq().take(it.index() as int),
            it.seq() == s@,
    {
        out.push(c);
    }
    out
}

/// The string made of `chars`.
pub fn string_of(chars: &Vec<char>) -> (out: String)
    ensures
        out@ == chars@,
{
    let mut out = String::new();
    let mut i: usize = 0;
    while i < chars.len()
        invariant
            i <= chars.len(),
            out@ == chars@.take(i as int),
        decreases chars.len() - i,
    {
        push_char(&mut out, chars[i]);
        assert(chars@.take(i as int).push(chars@[i as int]) =~= chars@.take(i + 1));
        i += 1;
    }
    assert(chars@.take(chars.len() as int) =~= chars@);
    out
}

/// Whether two strings hold the same text.
pub fn same_text(a: &str, b: &str) -> (same: bool)
    ensures
        same == (a@ == b@),
{
    let x = chars_of(a);
    let y = chars_of(b);
    same_chars(&x, &y)
}

/// Whether two character vectors hold the same text.
pub fn same_chars(a: &Vec<char>, b: &Vec<char>) -> (same: bool)
    ensures
        same == (a@ == b@),
{
    if a.len() != b.len() {
        return false;
    }
    let mut i: usize = 0;
    while i < a.len()
        invariant
            i <= a.len(),
            a.len() == b.len(),
            forall|j: int| 0 <= j < i ==> a@[j] == b@[j],
        decreases a.len() - i,
    {
        if a[i] != b[i] {
            return false;
        }
        i += 1;
    }
    assert(a@ =~= b@);
    true
}

/// Whether `p` stands in `s` at index `at`.
pub fn matches_at(s: &Vec<char>, p: &Vec<char>, at: usize) -> (found: bool)
    ensures
        found == occurs_at(s@, p@, at as int),
{
    if p.len() > s.len() || at > s.len() - p.len() {
        return false;
    }
    let mut k: usize = 0;
    while k < p.len()
        invariant
            k <= p.len(),
            at + p.len() <= s.len(),
            forall|j: int| 0 <= j < k ==> s@[at + j] == p@[j],
        decreases p.len() - k,
    {
        if s[at + k] != p[k] {
            assert(s@.subrange(at as int, at + p.len())[k as int] != p@[k as int]);
            return false;
        }
        k += 1;
    }
    assert(s@.subrange(at as int, at + p.len()) =~= p@);
    true
}

/// Whether `s` begins with `p`.
pub fn has_prefix(s: &Vec<char>, p: &Vec<char>) -> (found: bool)
    ensures
        found == starts_with(s@, p@),
{
    matches_at(s, p, 0)
}

/// Whether `s` ends with `p`.
pub fn has_suffix(s: &Vec<char>, p: &Vec<char>) -> (found: bool)
    ensures
        found == ends_with(s@, p@),
{
    if p.len() > s.len() {
        return false;
    }
    matches_at(s, p, s.len() - p.len())
}

/// Whether `p` stands somewhere in `s`.
pub fn has_part(s: &Vec<char>, p: &Vec<char>) -> (found: bool)
    ensures
        found == contains(s@, p@),
{
    if p.len() > s.len() {
        assert(forall|at: int| !occurs_at(s@, p@, at));
        return false;
    }
    if p.len() == 0 {
        assert(s@.subrange(0, 0) =~= p@);
        assert(occurs_at(s@, p@, 0));
        return true;
    }
    let last: usize = s.len() - p.len();
    let mut i: usize = 0;
    while i <= last
        invariant
            i <= last + 1,
            last == s.len() - p.len(),
            last < s.len(),
            forall|at: int| 0 <= at < i ==> !occurs_at(s@, p@, at),
        decreases last + 1 - i,
    {
        if matches_at(s, p, i) {
            return true;
        }
        i += 1;
    }
    assert(forall|at: int| !occurs_at(s@, p@, at));
    false
}

/// The index of the first `c` in `s`, or the length of `s`.
pub fn find_char(s: &Vec<char>, c: char) -> (at: usize)
    ensures
        at == position(s@, c),
        at <= s.len(),
        at < s.len() ==> s@[at as int] == c,
        forall|j: int| 0 <= j < at ==> s@[j] != c,
{
    let mut i: usize = 0;
    while i < s.len() && s[i] != c
        invariant
            i <= s.len(),
            position(s@, c) == position_from(s@, c, i as int),
            forall|j: int| 0 <= j < i ==> s@[j] != c,
        decreases s.len() - i,
    {
        i += 1;
    }
    i
}

/// The index of the last `c` in `s`, if it holds one.
pub fn find_last_char(s: &Vec<char>, c: char) -> (at: Option<usize>)
    ensures
        match at {
            Some(i) => i == last_position_before(s@, c, s@.len() as int) && i < s.len() && s@[i as int]
                == c,
            None => last_position_before(s@, c, s@.len() as int) == -1,
        },
{
    let mut i: usize = s.len();
    while i > 0 && s[i - 1] != c
        invariant
            i <= s.len(),
            last_position_before(s@, c, s@.len() as int) == last_position_before(s@, c, i as int),
        decreases i,
    {
        i -= 1;
    }
    if i == 0 {
        None
    } else {
        Some(i - 1)
    }
}

/// The characters of `s` from index `from` up to, not including, index `to`.
pub fn slice_of(s: &Vec<char>, from: usize, to: usize) -> (out: Vec<char>)
    requires
        from <= to <= s.len(),
    ensures
        out@ == s@.subrange(from as int, to as int),
{
    let mut out: Vec<char> = Vec::new();
    let mut i: usize = from;
    while i < to
        invariant
            from <= i <= to,
            to <= s.len(),
            out@ == s@.subrange(from as int, i as int),
        decreases to - i,
    {
        out.push(s[i]);
        assert(s@.subrange(from as int, i as int).push(s@[i as int]) =~= s@.subrange(
            from as int,
            i + 1,
        ));
        i += 1;
    }
    out
}

/// Appends the characters of `tail` to `head`.
pub fn append_chars(head: &mut Vec<char>, tail: &Vec<char>)
    ensures
        final(head)@ == old(head)@ + tail@,
{
    let mut i: usize = 0;
    while i < tail.len()
        invariant
            i <= tail.len(),
            head@ == old(head)@ + tail@.take(i as int),
        decreases tail.len() - i,
    {
        head.push(tail[i]);
        assert(tail@.take(i as int).push(tail@[i as int]) =~= tail@.take(i + 1));
        assert(head@ =~= old(head)@ + tail@.take(i + 1));
        i += 1;
    }
    assert(tail@.take(tail.len() as int) =~= tail@);
}

/// `s` without the repetitions of `p` that it begins with.
pub fn trim_leading(s: &Vec<char>, p: &Vec<char>) -> (out: Vec<char>)
    ensures
        out@ == trim_start(s@, p@),
{
    let mut i: usize = 0;
    if p.len() > 0 {
        while matches_at(s, p, i)
            invariant
                i <= s.len(),
                p.len() > 0,
                leading_end(s@, p@, 0) == leading_end(s@, p@, i as int),
            decreases s.len() - i,
        {
            i += p.len();
        }
    }
    assert(s@.subrange(i as int, s.len() as int) =~= s@.skip(i as int));
    slice_of(s, i, s.len())
}

/// `s` with every occurrence of `from` replaced by `to`.
pub fn replace_all(s: &Vec<char>, from: &Vec<char>, to: &Vec<char>) -> (out: Vec<char>)
    ensures
        out@ == replaced(s@, from@, to@),
{
    let mut out: Vec<char> = Vec::new();
    let mut i: usize = 0;
    while i < s.len()
        invariant
            i <= s.len(),
            replaced(s@, from@, to@) == out@ + replaced_from(s@, from@, to@, i as int),
        decreases s.len() - i,
    {
        let ghost before_step = out@;
        if from.len() > 0 && matches_at(s, from, i) {
            append_chars(&mut out, to);
            assert(out@ + replaced_from(s@, from@, to@, i + from.len()) =~= before_step + (to@
                + replaced_from(s@, from@, to@, i + from.len())));
            i += from.len();
        } else {
            out.push(s[i]);
            assert(out@ + replaced_from(s@, from@, to@, i + 1) =~= before_step + (seq![s@[i as int]]
                + replaced_from(s@, from@, to@, i + 1)));
            i += 1;
        }
    }
    assert(out@ + Seq::<char>::empty() =~= out@);
    out
}

/// `s` with each character `from` turned into `to`.
pub fn swap_char(s: &Vec<char>, from: char, to: char) -> (out: Vec<char>)
    ensures
        out@ == swapped(s@, from, to),
{
    let mut out: Vec<char> = Vec::new();
    let mut i: usize = 0;
    while i < s.len()
        invariant
            i <= s.len(),
            out@ == swapped_upto(s@, from, to, i as nat),
        decreases s.len() - i,
    {
        let c = s[i];
        out.push(
            if c == from {
                to
            } else {
                c
            },
        );
        i += 1;
    }
    out
}

} // verus!
