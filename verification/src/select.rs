//! What a position list selects from a sequence.

use std::ops::Range;
use vstd::prelude::*;

verus! {

/// A range is usable when it does not end before it starts.
pub open spec fn range_ok(r: Range<usize>) -> bool {
    r.start <= r.end
}

/// Every range of the list is usable.
pub open spec fn ranges_ok(ranges: Seq<Range<usize>>) -> bool {
    forall|i: int| 0 <= i < ranges.len() ==> range_ok(#[trigger] ranges[i])
}

/// `pos` limited to the length `len`.
pub open spec fn clamp(pos: usize, len: nat) -> int {
    if pos <= len {
        pos as int
    } else {
        len as int
    }
}

/// The items of `s` at the positions of `r` that exist: those from `r.start`
/// up to, not including, `r.end`, as far as `s` reaches.
pub open spec fn pick<T>(s: Seq<T>, r: Range<usize>) -> Seq<T> {
    s.subrange(clamp(r.start, s.len()), clamp(r.end, s.len()))
}

/// The items that the ranges pick from `s`, range after range in the order of
/// the list. Nothing is sorted or merged: a position named twice is taken twice.
pub open spec fn select<T>(s: Seq<T>, ranges: Seq<Range<usize>>) -> Seq<T>
    decreases ranges.len(),
{
    if ranges.len() == 0 {
        Seq::empty()
    } else {
        select(s, ranges.drop_last()) + pick(s, ranges.last())
    }
}

/// `pos` limited to `len`.
pub(crate) fn clamp_to(pos: usize, len: usize) -> (res: usize)
    ensures
        res == clamp(pos, len as nat),
{
    if pos <= len {
        pos
    } else {
        len
    }
}

/// A range that lies within `s` picks exactly its positions.
pub proof fn lemma_pick_within<T>(s: Seq<T>, r: Range<usize>)
    requires
        r.start <= r.end <= s.len(),
    ensures
        pick(s, r) == s.subrange(r.start as int, r.end as int),
        pick(s, r).len() == r.end - r.start,
{
}

/// A range picks no more items than it has positions, and none where it
/// starts at or beyond the end of `s`.
pub proof fn lemma_pick_bounds<T>(s: Seq<T>, r: Range<usize>)
    requires
        range_ok(r),
    ensures
        pick(s, r).len() <= r.end - r.start,
        r.start >= s.len() ==> pick(s, r) == Seq::<T>::empty(),
{
    if r.start >= s.len() {
        assert(pick(s, r) =~= Seq::<T>::empty());
    }
}

/// What a list selects is what its first part selects, followed by what the
/// rest selects: the order of the list is the order of the result, and a
/// range that occurs twice is applied twice.
pub proof fn lemma_select_concat<T>(s: Seq<T>, first: Seq<Range<usize>>, rest: Seq<Range<usize>>)
    ensures
        select(s, first + rest) == select(s, first) + select(s, rest),
    decreases rest.len(),
{
    if rest.len() == 0 {
        assert(first + rest =~= first);
        assert(select(s, first) + select(s, rest) =~= select(s, first));
    } else {
        lemma_select_concat(s, first, rest.drop_last());
        assert((first + rest).drop_last() =~= first + rest.drop_last());
        assert((first + rest).last() == rest.last());
    }
}

/// A list of one range selects what the range picks.
pub proof fn lemma_select_one<T>(s: Seq<T>, r: Range<usize>)
    ensures
        select(s, seq![r]) == pick(s, r),
{
    let none = Seq::<Range<usize>>::empty();
    assert(seq![r].drop_last() =~= none);
    assert(select(s, none) =~= Seq::<T>::empty());
}

/// The one range that spans all of `s` selects `s` itself.
pub proof fn lemma_select_all<T>(s: Seq<T>, r: Range<usize>)
    requires
        r.start == 0,
        r.end >= s.len(),
    ensures
        select(s, seq![r]) == s,
{
    lemma_select_one(s, r);
    assert(pick(s, r) =~= s);
}

/// Ranges that all start at or beyond the end of `s` select nothing.
pub proof fn lemma_select_beyond<T>(s: Seq<T>, ranges: Seq<Range<usize>>)
    requires
        ranges_ok(ranges),
        forall|i: int| 0 <= i < ranges.len() ==> (#[trigger] ranges[i]).start >= s.len(),
    ensures
        select(s, ranges) == Seq::<T>::empty(),
    decreases ranges.len(),
{
    if ranges.len() > 0 {
        lemma_select_beyond(s, ranges.drop_last());
        lemma_pick_bounds(s, ranges.last());
    }
}

/// What holds of every item of `s` holds of every item selected from it:
/// selecting makes no new items.
pub proof fn lemma_select_keeps<T>(s: Seq<T>, ranges: Seq<Range<usize>>, holds: spec_fn(T) -> bool)
    requires
        ranges_ok(ranges),
        forall|i: int| 0 <= i < s.len() ==> holds(#[trigger] s[i]),
    ensures
        forall|i: int| 0 <= i < select(s, ranges).len() ==> holds(#[trigger] select(s, ranges)[i]),
    decreases ranges.len(),
{
    if ranges.len() > 0 {
        lemma_select_keeps(s, ranges.drop_last(), holds);
        let before = select(s, ranges.drop_last());
        let last = ranges.last();
        let picked = pick(s, last);
        assert forall|i: int| 0 <= i < select(s, ranges).len() implies holds(
            #[trigger] select(s, ranges)[i],
        ) by {
            if i >= before.len() {
                let k: int = i - before.len();
                assert(picked[k] == s[clamp(last.start, s.len()) + k]);
            }
        }
    }
}

/// Selecting from a sequence whose items were all changed in one way gives
/// the selected items, changed in that way.
pub proof fn lemma_select_map<A, B>(s: Seq<A>, ranges: Seq<Range<usize>>, change: spec_fn(A) -> B)
    requires
        ranges_ok(ranges),
    ensures
        select(s.map_values(change), ranges) == select(s, ranges).map_values(change),
    decreases ranges.len(),
{
    let changed = s.map_values(change);
    if ranges.len() > 0 {
        lemma_select_map(s, ranges.drop_last(), change);
        let last = ranges.last();
        assert(pick(changed, last) =~= pick(s, last).map_values(change));
    }
}

} // verus!
