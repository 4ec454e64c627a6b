//! Strings as sequences of characters: conversion, search and splitting.

use vstd::prelude::*;

verus! {

/// The position of the first `c` in `s`, or the length of `s` if it holds none.
pub open spec fn find(s: Seq<char>, c: char) -> int
    decreases s.len(),
{
    if s.len() == 0 || s[0] == c {
        0
    } else {
        1 + find(s.skip(1), c)
    }
}

/// The pieces of `s` between its separators, in order. A text without a
/// separator is one piece; two separators in a row, or one at either end,
/// give an empty piece.
pub open spec fn split(s: Seq<char>, sep: char) -> Seq<Seq<char>>
    decreases s.len(),
{
    let at = find(s, sep);
    if 0 <= at < s.len() {
        seq![s.take(at)] + split(s.skip(at + 1), sep)
    } else {
        seq![s]
    }
}

/// `find` stays within the text, passes over no `c`, and stops on one unless
/// it reaches the end.
pub proof fn lemma_find(s: Seq<char>, c: char)
    ensures
        0 <= find(s, c) <= s.len(),
        forall|i: int| 0 <= i < find(s, c) ==> s[i] != c,
        find(s, c) < s.len() ==> s[find(s, c)] == c,
    decreases s.len(),
{
    if s.len() != 0 && s[0] != c {
        let rest = s.skip(1);
        lemma_find(rest, c);
        assert forall|i: int| 0 <= i < find(s, c) implies s[i] != c by {
            if i > 0 {
                assert(s[i] == rest[i - 1]);
            }
        }
    }
}

/// Only one position is the first: one that follows no `c` and is the end of
/// the text or holds `c`.
pub proof fn lemma_find_is(s: Seq<char>, c: char, at: int)
    requires
        0 <= at <= s.len(),
        forall|i: int| 0 <= i < at ==> s[i] != c,
        at < s.len() ==> s[at] == c,
    ensures
        find(s, c) == at,
{
    lemma_find(s, c);
}

/// Splitting a text that was joined with a separator gives the pieces of the
/// one part, then the pieces of the other.
pub proof fn lemma_split_joined(first: Seq<char>, second: Seq<char>, sep: char)
    ensures
        split(first + seq![sep] + second, sep) == split(first, sep) + split(second, sep),
    decreases first.len(),
{
    let whole = first + seq![sep] + second;
    let at = find(first, sep);
    lemma_find(first, sep);
    assert forall|i: int| 0 <= i < at implies whole[i] != sep by {
        assert(whole[i] == first[i]);
    }
    if at < first.len() {
        assert(whole[at] == first[at]);
        lemma_find_is(whole, sep, at);
        let tail = first.skip(at + 1);
        assert(whole.take(at) =~= first.take(at));
        assert(whole.skip(at + 1) =~= tail + seq![sep] + second);
        lemma_split_joined(tail, second, sep);
    } else {
        lemma_find_is(whole, sep, at);
        assert(whole.take(at) =~= first);
        assert(whole.skip(at + 1) =~= second);
        assert(split(first, sep) =~= seq![first]);
    }
}

/// The characters of `s`, in order.
pub(crate) fn chars_of(s: &str) -> (res: Vec<char>)
    ensures
        res@ == s@,
{
    let mut out: Vec<char> = Vec::new();
    for c in it: s.chars()
        invariant
            it.seq() == s@,
            out@ == s@.take(it.index() as int),
    {
        out.push(c);
    }
    out
}

/// The first position at or after `from` and before `to` that holds `c`, or
/// `to` if there is none.
pub(crate) fn find_in(chars: &[char], from: usize, to: usize, c: char) -> (at: usize)
    requires
        from <= to <= chars.len(),
    ensures
        from <= at <= to,
        at - from == find(chars@.subrange(from as int, to as int), c),
{
    let mut at: usize = from;
    while at < to && chars[at] != c
        invariant
            from <= at <= to <= chars.len(),
            forall|i: int| from <= i < at ==> chars[i] != c,
        decreases to - at,
    {
        at += 1;
    }
    proof {
        lemma_find_is(chars@.subrange(from as int, to as int), c, at - from);
    }
    at
}

} // verus!
