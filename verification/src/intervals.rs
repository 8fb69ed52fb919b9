//! Merging of detection intervals with a gap tolerance.
//!
//! An interval is a pair `(start, end)` of offsets in seconds. The merged
//! form of a list is obtained by ordering it by start and then sweeping it
//! from the left, joining each interval to the one before it whenever it
//! starts no later than `GAP` seconds after that one ends.

use vstd::prelude::*;

verus! {

/// Largest separation, in seconds, across which two intervals are still
/// joined into one.
pub const GAP: u64 = 5;

/// An interval starting at `start` is joined to one ending at `end`.
pub open spec fn within_gap(end: u64, start: u64) -> bool {
    start as int <= end as int + GAP as int
}

/// The starts never decrease from left to right.
pub open spec fn sorted_by_start(s: Seq<(u64, u64)>) -> bool {
    forall|i: int, j: int| 0 <= i <= j < s.len() ==> s[i].0 <= s[j].0
}

/// Each interval starts more than `GAP` after its left neighbour ends.
pub open spec fn separated(s: Seq<(u64, u64)>) -> bool {
    forall|i: int| 0 <= i < s.len() - 1 ==> !within_gap((#[trigger] s[i]).1, s[i + 1].0)
}

/// `s` with `iv` put in after every interval that starts no later than it.
pub open spec fn place(s: Seq<(u64, u64)>, iv: (u64, u64)) -> Seq<(u64, u64)>
    decreases s.len(),
{
    if s.len() == 0 || s.last().0 <= iv.0 {
        s.push(iv)
    } else {
        place(s.drop_last(), iv).push(s.last())
    }
}

/// The intervals of `s` in ascending order of start; intervals with the same
/// start keep the order they had in `s`.
pub open spec fn ordered(s: Seq<(u64, u64)>) -> Seq<(u64, u64)>
    decreases s.len(),
{
    if s.len() == 0 {
        s
    } else {
        place(ordered(s.drop_last()), s.last())
    }
}

/// One step of the sweep: `iv` either widens the last interval of `m` or is
/// appended to it.
pub open spec fn absorb(m: Seq<(u64, u64)>, iv: (u64, u64)) -> Seq<(u64, u64)> {
    if m.len() == 0 {
        seq![iv]
    } else if within_gap(m.last().1, iv.0) {
        m.update(m.len() - 1, (m.last().0, if m.last().1 >= iv.1 { m.last().1 } else { iv.1 }))
    } else {
        m.push(iv)
    }
}

/// The sweep over `s` from the left.
pub open spec fn sweep(s: Seq<(u64, u64)>) -> Seq<(u64, u64)>
    decreases s.len(),
{
    if s.len() == 0 {
        s
    } else {
        absorb(sweep(s.drop_last()), s.last())
    }
}

/// The merged form of an interval list.
pub open spec fn merged(s: Seq<(u64, u64)>) -> Seq<(u64, u64)> {
    sweep(ordered(s))
}

/// `outer` starts no later and ends no earlier than `inner`.
pub open spec fn covers(outer: (u64, u64), inner: (u64, u64)) -> bool {
    outer.0 <= inner.0 && inner.1 <= outer.1
}

/// Some interval of `m` covers `iv`.
pub open spec fn covered_by(m: Seq<(u64, u64)>, iv: (u64, u64)) -> bool {
    exists|j: int| 0 <= j < m.len() && covers(#[trigger] m[j], iv)
}

/// Some interval of `s` starts at `start`.
pub open spec fn starts_in(s: Seq<(u64, u64)>, start: u64) -> bool {
    exists|i: int| 0 <= i < s.len() && (#[trigger] s[i]).0 == start
}

/// Some interval of `s` ends at `end`.
pub open spec fn ends_in(s: Seq<(u64, u64)>, end: u64) -> bool {
    exists|i: int| 0 <= i < s.len() && (#[trigger] s[i]).1 == end
}

/// No interval of `s` ends before it starts.
pub open spec fn all_valid(s: Seq<(u64, u64)>) -> bool {
    forall|i: int| 0 <= i < s.len() ==> (#[trigger] s[i]).0 <= s[i].1
}

/// Every interval of `s` is covered by some interval of `m`.
pub open spec fn covers_all(m: Seq<(u64, u64)>, s: Seq<(u64, u64)>) -> bool {
    forall|i: int| 0 <= i < s.len() ==> #[trigger] covered_by(m, s[i])
}

/// Every interval of `m` starts where some interval of `s` starts and ends
/// where some interval of `s` ends.
pub open spec fn bounded_by(m: Seq<(u64, u64)>, s: Seq<(u64, u64)>) -> bool {
    forall|j: int|
        0 <= j < m.len() ==> starts_in(s, (#[trigger] m[j]).0) && ends_in(s, m[j].1)
}

/// Putting `iv` in at `pos` is `place` when everything from `pos` on starts
/// later than `iv` and the interval just before `pos`, if any, does not.
proof fn lemma_place_at(s: Seq<(u64, u64)>, iv: (u64, u64), pos: int)
    requires
        0 <= pos <= s.len(),
        forall|j: int| pos <= j < s.len() ==> s[j].0 > iv.0,
        pos > 0 ==> s[pos - 1].0 <= iv.0,
    ensures
        place(s, iv) == s.insert(pos, iv),
    decreases s.len(),
{
    if pos == s.len() {
        assert(s.insert(pos, iv) =~= s.push(iv));
    } else {
        lemma_place_at(s.drop_last(), iv, pos);
        assert(s.drop_last().insert(pos, iv).push(s.last()) =~= s.insert(pos, iv));
    }
}

/// Where `iv` lands in `place(s, iv)`.
proof fn lemma_place_slot(s: Seq<(u64, u64)>, iv: (u64, u64)) -> (pos: int)
    ensures
        0 <= pos <= s.len(),
        place(s, iv) == s.insert(pos, iv),
        forall|j: int| pos <= j < s.len() ==> s[j].0 > iv.0,
        pos > 0 ==> s[pos - 1].0 <= iv.0,
    decreases s.len(),
{
    if s.len() == 0 || s.last().0 <= iv.0 {
        assert(s.insert(s.len() as int, iv) =~= s.push(iv));
        s.len() as int
    } else {
        let pos = lemma_place_slot(s.drop_last(), iv);
        assert(s.drop_last().insert(pos, iv).push(s.last()) =~= s.insert(pos, iv));
        assert forall|j: int| pos <= j < s.len() implies s[j].0 > iv.0 by {
            if j < s.len() - 1 {
                assert(s.drop_last()[j] == s[j]);
            }
        }
        pos
    }
}

/// Ordering yields a list sorted by start.
pub proof fn lemma_ordered_sorted(s: Seq<(u64, u64)>)
    ensures
        sorted_by_start(ordered(s)),
        ordered(s).len() == s.len(),
    decreases s.len(),
{
    if s.len() > 0 {
        lemma_ordered_sorted(s.drop_last());
        let t = ordered(s.drop_last());
        let pos = lemma_place_slot(t, s.last());
    }
}

/// Ordering keeps every interval, as often as it occurred.
pub proof fn lemma_ordered_permutes(s: Seq<(u64, u64)>)
    ensures
        ordered(s).to_multiset() == s.to_multiset(),
    decreases s.len(),
{
    broadcast use vstd::seq_lib::to_multiset_insert, vstd::seq_lib::to_multiset_build;
    if s.len() > 0 {
        lemma_ordered_permutes(s.drop_last());
        let t = ordered(s.drop_last());
        let pos = lemma_place_slot(t, s.last());
        assert(s.drop_last().push(s.last()) =~= s);
    } else {
    }
}

/// Ordering leaves a list that is already sorted by start as it is.
pub proof fn lemma_ordered_fixpoint(s: Seq<(u64, u64)>)
    requires
        sorted_by_start(s),
    ensures
        ordered(s) == s,
    decreases s.len(),
{
    if s.len() > 0 {
        lemma_ordered_fixpoint(s.drop_last());
        assert(s.drop_last().push(s.last()) =~= s);
    }
}

/// The sweep of a sorted list is sorted and separated, and its last interval
/// starts no later than the last interval swept.
pub proof fn lemma_sweep_shape(s: Seq<(u64, u64)>)
    requires
        sorted_by_start(s),
    ensures
        sorted_by_start(sweep(s)),
        separated(sweep(s)),
        sweep(s).len() <= s.len(),
        s.len() > 0 ==> sweep(s).len() > 0 && sweep(s).last().0 <= s.last().0,
    decreases s.len(),
{
    if s.len() > 0 {
        lemma_sweep_shape(s.drop_last());
    }
}

/// The sweep leaves a separated list as it is.
pub proof fn lemma_sweep_fixpoint(s: Seq<(u64, u64)>)
    requires
        separated(s),
    ensures
        sweep(s) == s,
    decreases s.len(),
{
    if s.len() > 0 {
        lemma_sweep_fixpoint(s.drop_last());
        assert(s.drop_last().push(s.last()) =~= s);
    }
}

/// After the sweep of a sorted list every interval swept is covered.
pub proof fn lemma_sweep_covers(s: Seq<(u64, u64)>)
    requires
        sorted_by_start(s),
    ensures
        covers_all(sweep(s), s),
    decreases s.len(),
{
    if s.len() > 0 {
        let t = s.drop_last();
        let iv = s.last();
        lemma_sweep_covers(t);
        lemma_sweep_shape(t);
        let m0 = sweep(t);
        let m = sweep(s);
        assert forall|i: int| 0 <= i < s.len() implies #[trigger] covered_by(m, s[i]) by {
            if i < t.len() {
                assert(t[i] == s[i]);
                assert(covered_by(m0, t[i]));
                let j = choose|j: int| 0 <= j < m0.len() && covers(#[trigger] m0[j], t[i]);
                assert(covers(m[j], s[i]));
            } else {
                if t.len() > 0 {
                    assert(t.last() == s[s.len() - 2]);
                }
                assert(covers(m[m.len() - 1], iv));
            }
        }
    }
}

/// The sweep invents no bound: each interval it yields starts where one of
/// the intervals swept starts and ends where one of them ends.
pub proof fn lemma_sweep_bounds(s: Seq<(u64, u64)>)
    ensures
        bounded_by(sweep(s), s),
    decreases s.len(),
{
    if s.len() > 0 {
        let t = s.drop_last();
        let iv = s.last();
        lemma_sweep_bounds(t);
        let m0 = sweep(t);
        let m = sweep(s);
        assert forall|j: int| 0 <= j < m.len() implies starts_in(s, (#[trigger] m[j]).0)
            && ends_in(s, m[j].1) by {
            assert(s[s.len() - 1] == iv);
            if j < m0.len() {
                let a = choose|a: int| 0 <= a < t.len() && (#[trigger] t[a]).0 == m0[j].0;
                let b = choose|b: int| 0 <= b < t.len() && (#[trigger] t[b]).1 == m0[j].1;
                assert(s[a] == t[a]);
                assert(s[b] == t[b]);
                assert(m[j].0 == m0[j].0);
                assert(m[j].1 == m0[j].1 || m[j].1 == iv.1);
            }
        }
    }
}

/// Ordering neither drops nor invents an interval.
pub proof fn lemma_ordered_same_members(s: Seq<(u64, u64)>)
    ensures
        forall|iv: (u64, u64)| s.contains(iv) <==> ordered(s).contains(iv),
{
    lemma_ordered_permutes(s);
    assert forall|iv: (u64, u64)| s.contains(iv) <==> ordered(s).contains(iv) by {
        vstd::seq_lib::to_multiset_contains(s, iv);
        vstd::seq_lib::to_multiset_contains(ordered(s), iv);
    }
}

/// Every interval of a list is covered by an interval of its merged form.
pub proof fn lemma_merged_covers(s: Seq<(u64, u64)>)
    ensures
        covers_all(merged(s), s),
{
    let o = ordered(s);
    lemma_ordered_sorted(s);
    lemma_ordered_same_members(s);
    lemma_sweep_covers(o);
    assert forall|i: int| 0 <= i < s.len() implies #[trigger] covered_by(merged(s), s[i]) by {
        assert(s.contains(s[i]));
        assert(o.contains(s[i]));
        let k = choose|k: int| 0 <= k < o.len() && o[k] == s[i];
        assert(covered_by(sweep(o), o[k]));
    }
}

/// Every interval of a merged form starts where an interval of the list
/// starts and ends where an interval of the list ends.
pub proof fn lemma_merged_bounds(s: Seq<(u64, u64)>)
    ensures
        bounded_by(merged(s), s),
{
    let o = ordered(s);
    lemma_ordered_same_members(s);
    lemma_sweep_bounds(o);
    assert forall|j: int| 0 <= j < merged(s).len() implies starts_in(
        s,
        (#[trigger] merged(s)[j]).0,
    ) && ends_in(s, merged(s)[j].1) by {
        let m = merged(s);
        let a = choose|a: int| 0 <= a < o.len() && (#[trigger] o[a]).0 == m[j].0;
        let b = choose|b: int| 0 <= b < o.len() && (#[trigger] o[b]).1 == m[j].1;
        assert(o.contains(o[a]));
        assert(o.contains(o[b]));
        assert(s.contains(o[a]));
        assert(s.contains(o[b]));
        let a2 = choose|a2: int| 0 <= a2 < s.len() && s[a2] == o[a];
        let b2 = choose|b2: int| 0 <= b2 < s.len() && s[b2] == o[b];
        assert(s[a2].0 == m[j].0);
        assert(s[b2].1 == m[j].1);
    }
}

/// The sweep of intervals that end no earlier than they start yields such
/// intervals.
pub proof fn lemma_sweep_valid(s: Seq<(u64, u64)>)
    requires
        all_valid(s),
    ensures
        all_valid(sweep(s)),
    decreases s.len(),
{
    if s.len() > 0 {
        let t = s.drop_last();
        assert forall|i: int| 0 <= i < t.len() implies (#[trigger] t[i]).0 <= t[i].1 by {
            assert(t[i] == s[i]);
        }
        lemma_sweep_valid(t);
        assert(s.last() == s[s.len() - 1]);
    }
}

/// The merged form of intervals that end no earlier than they start consists
/// of such intervals.
pub proof fn lemma_merged_valid(s: Seq<(u64, u64)>)
    requires
        all_valid(s),
    ensures
        all_valid(merged(s)),
{
    let o = ordered(s);
    lemma_ordered_same_members(s);
    assert forall|k: int| 0 <= k < o.len() implies (#[trigger] o[k]).0 <= o[k].1 by {
        assert(o.contains(o[k]));
        assert(s.contains(o[k]));
        let i = choose|i: int| 0 <= i < s.len() && s[i] == o[k];
        assert(s[i].0 <= s[i].1);
    }
    lemma_sweep_valid(o);
}

/// The merged form is sorted by start, separated, no longer than the input,
/// and empty only for an empty input.
pub proof fn lemma_merged_shape(s: Seq<(u64, u64)>)
    ensures
        sorted_by_start(merged(s)),
        separated(merged(s)),
        merged(s).len() <= s.len(),
        merged(s).len() == 0 <==> s.len() == 0,
{
    lemma_ordered_sorted(s);
    lemma_sweep_shape(ordered(s));
}

/// A list that is sorted by start and separated is its own merged form.
pub proof fn lemma_merged_unchanged(s: Seq<(u64, u64)>)
    requires
        sorted_by_start(s),
        separated(s),
    ensures
        merged(s) == s,
{
    lemma_ordered_fixpoint(s);
    lemma_sweep_fixpoint(s);
}

/// Merging is idempotent: the merged form of a merged form is itself.
pub proof fn lemma_merge_idempotent(s: Seq<(u64, u64)>)
    ensures
        merged(merged(s)) == merged(s),
{
    lemma_merged_shape(s);
    lemma_merged_unchanged(merged(s));
}

/// Orders the intervals by start, keeping the order of those that start
/// together.
pub fn sort_by_start(intervals: Vec<(u64, u64)>) -> (sorted: Vec<(u64, u64)>)
    ensures
        sorted@ == ordered(intervals@),
        sorted_by_start(sorted@),
        sorted@.to_multiset() == intervals@.to_multiset(),
{
    proof {
        lemma_ordered_sorted(intervals@);
        lemma_ordered_permutes(intervals@);
    }
    let mut sorted: Vec<(u64, u64)> = Vec::new();
    let mut i: usize = 0;
    while i < intervals.len()
        invariant
            i <= intervals.len(),
            sorted@ == ordered(intervals@.take(i as int)),
        decreases intervals.len() - i,
    {
        let iv = intervals[i];
        let mut pos: usize = sorted.len();
        while pos > 0 && sorted[pos - 1].0 > iv.0
            invariant
                pos <= sorted.len(),
                forall|j: int| pos <= j < sorted.len() ==> sorted[j].0 > iv.0,
            decreases pos,
        {
            pos -= 1;
        }
        proof {
            lemma_place_at(sorted@, iv, pos as int);
            assert(intervals@.take(i + 1).drop_last() =~= intervals@.take(i as int));
        }
        sorted.insert(pos, iv);
        i += 1;
    }
    proof {
        assert(intervals@.take(intervals.len() as int) =~= intervals@);
    }
    sorted
}

/// Sweeps a list from the left, joining each interval to the one before it
/// when it starts within `GAP` of that one's end.
pub fn merge_sorted(sorted: &Vec<(u64, u64)>) -> (merged: Vec<(u64, u64)>)
    ensures
        merged@ == sweep(sorted@),
        sorted_by_start(sorted@) ==> sorted_by_start(merged@) && separated(merged@)
            && covers_all(merged@, sorted@),
        bounded_by(merged@, sorted@),
{
    proof {
        if sorted_by_start(sorted@) {
            lemma_sweep_shape(sorted@);
            lemma_sweep_covers(sorted@);
        }
        lemma_sweep_bounds(sorted@);
    }
    let mut merged: Vec<(u64, u64)> = Vec::new();
    let mut i: usize = 0;
    while i < sorted.len()
        invariant
            i <= sorted.len(),
            merged@ == sweep(sorted@.take(i as int)),
        decreases sorted.len() - i,
    {
        let (start, end) = sorted[i];
        proof {
            assert(sorted@.take(i + 1).drop_last() =~= sorted@.take(i as int));
        }
        let n: usize = merged.len();
        if n == 0 {
            merged.push((start, end));
            assert(merged@ =~= seq![(start, end)]);
        } else {
            let last = merged[n - 1];
            if start <= last.1 || start - last.1 <= GAP {
                let wider: u64 = if last.1 >= end { last.1 } else { end };
                merged.set(n - 1, (last.0, wider));
            } else {
                merged.push((start, end));
            }
        }
        i += 1;
    }
    proof {
        assert(sorted@.take(sorted.len() as int) =~= sorted@);
    }
    merged
}

/// Merges a list of intervals given in any order: orders them by start and
/// joins each to the one before it when it starts within `GAP` of that one's
/// end. The result is sorted by start, its intervals lie more than `GAP`
/// apart, and each interval of the input is covered by one of them.
pub fn merge_intervals(intervals: Vec<(u64, u64)>) -> (result: Vec<(u64, u64)>)
    ensures
        result@ == merged(intervals@),
        sorted_by_start(result@),
        separated(result@),
        result@.len() <= intervals@.len(),
        result@.len() == 0 <==> intervals@.len() == 0,
        intervals@.len() <= 1 ==> result@ == intervals@,
        all_valid(intervals@) ==> all_valid(result@),
        covers_all(result@, intervals@),
        bounded_by(result@, intervals@),
{
    proof {
        lemma_merged_shape(intervals@);
        lemma_merged_covers(intervals@);
        lemma_merged_bounds(intervals@);
        if all_valid(intervals@) {
            lemma_merged_valid(intervals@);
        }
        if intervals@.len() <= 1 {
            lemma_merged_unchanged(intervals@);
        }
    }
    if intervals.is_empty() {
        return Vec::new();
    }
    let sorted = sort_by_start(intervals);
    merge_sorted(&sorted)
}

} // verus!
