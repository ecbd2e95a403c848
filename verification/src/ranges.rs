//! Merging of index ranges, as used to report which parts of the scene's
//! primitive arrays changed since the last frame.

use std::ops::Range;
use vstd::prelude::*;

verus! {

/// `p` lies inside the half-open range `r`.
pub open spec fn range_contains(r: Range<usize>, p: int) -> bool {
    r.start <= p < r.end
}

/// `p` lies inside at least one of the ranges in `rs`.
pub open spec fn covers(rs: Seq<Range<usize>>, p: int) -> bool {
    exists|i: int| 0 <= i < rs.len() && range_contains(#[trigger] rs[i], p)
}

/// Every range of `rs` is non-empty, the ranges are ordered by position, and
/// consecutive ranges are separated by at least one index that neither covers.
pub open spec fn is_merged(rs: Seq<Range<usize>>) -> bool {
    &&& forall|i: int| 0 <= i < rs.len() ==> (#[trigger] rs[i]).start < rs[i].end
    &&& forall|i: int| 0 <= i < rs.len() - 1 ==> (#[trigger] rs[i]).end < rs[i + 1].start
}

/// The ranges of `rs` cover the same indices as those of `other`.
pub open spec fn same_coverage(rs: Seq<Range<usize>>, other: Seq<Range<usize>>) -> bool {
    forall|p: int| covers(rs, p) <==> covers(other, p)
}

/// Ranges of `rs` are ordered by their start.
pub open spec fn sorted_by_start(rs: Seq<Range<usize>>) -> bool {
    forall|i: int, j: int| 0 <= i <= j < rs.len() ==> (#[trigger] rs[i]).start <= (#[trigger] rs[j]).start
}

/// Each element of `a` occurs in `b`.
pub open spec fn all_in(a: Seq<Range<usize>>, b: Seq<Range<usize>>) -> bool {
    forall|i: int| 0 <= i < a.len() ==> b.contains(#[trigger] a[i])
}

proof fn lemma_all_in_coverage(a: Seq<Range<usize>>, b: Seq<Range<usize>>)
    requires
        all_in(a, b),
        all_in(b, a),
    ensures
        same_coverage(a, b),
{
    assert forall|p: int| covers(a, p) <==> covers(b, p) by {
        if covers(a, p) {
            let i = choose|i: int| 0 <= i < a.len() && range_contains(#[trigger] a[i], p);
            assert(b.contains(a[i]));
            let j = choose|j: int| 0 <= j < b.len() && b[j] == a[i];
            assert(range_contains(b[j], p));
        }
        if covers(b, p) {
            let i = choose|i: int| 0 <= i < b.len() && range_contains(#[trigger] b[i], p);
            assert(a.contains(b[i]));
            let j = choose|j: int| 0 <= j < a.len() && a[j] == b[i];
            assert(range_contains(a[j], p));
        }
    }
}

proof fn lemma_merged_ordered(a: Seq<Range<usize>>)
    requires
        is_merged(a),
    ensures
        forall|i: int, j: int| 0 <= i < j < a.len() ==> (#[trigger] a[i]).end < (#[trigger] a[j]).start,
{
    assert forall|i: int, j: int| 0 <= i < j < a.len() implies (#[trigger] a[i]).end < (#[trigger] a[j]).start by {
        lemma_merged_ordered_from(a, i, j);
    }
}

proof fn lemma_merged_ordered_from(a: Seq<Range<usize>>, i: int, j: int)
    requires
        is_merged(a),
        0 <= i < j < a.len(),
    ensures
        a[i].end < a[j].start,
    decreases j - i,
{
    if j > i + 1 {
        lemma_merged_ordered_from(a, i, j - 1);
        assert(a[j - 1].start < a[j - 1].end);
        assert(a[j - 1].end < a[j].start);
    }
}

proof fn lemma_tail_coverage(a: Seq<Range<usize>>, p: int)
    requires
        is_merged(a),
        a.len() > 0,
    ensures
        covers(a.drop_first(), p) <==> (covers(a, p) && p >= a[0].end),
{
    lemma_merged_ordered(a);
    if covers(a.drop_first(), p) {
        let i = choose|i: int| 0 <= i < a.drop_first().len() && range_contains(#[trigger] a.drop_first()[i], p);
        assert(a.drop_first()[i] == a[i + 1]);
        assert(a[0].end < a[i + 1].start);
        assert(range_contains(a[i + 1], p));
    }
    if covers(a, p) && p >= a[0].end {
        let i = choose|i: int| 0 <= i < a.len() && range_contains(#[trigger] a[i], p);
        assert(i != 0);
        assert(a.drop_first()[i - 1] == a[i]);
        assert(range_contains(a.drop_first()[i - 1], p));
    }
}

proof fn lemma_same_first_start(a: Seq<Range<usize>>, b: Seq<Range<usize>>)
    requires
        is_merged(a),
        is_merged(b),
        same_coverage(a, b),
        a.len() > 0,
        b.len() > 0,
    ensures
        a[0].start == b[0].start,
{
    lemma_merged_ordered(a);
    lemma_merged_ordered(b);
    let sa = a[0].start as int;
    let sb = b[0].start as int;
    assert(range_contains(a[0], sa));
    assert(covers(a, sa));
    assert(covers(b, sa));
    let j = choose|j: int| 0 <= j < b.len() && range_contains(#[trigger] b[j], sa);
    if j > 0 {
        assert(b[0].end < b[j].start);
    }
    assert(range_contains(b[0], sb));
    assert(covers(b, sb));
    assert(covers(a, sb));
    let i = choose|i: int| 0 <= i < a.len() && range_contains(#[trigger] a[i], sb);
    if i > 0 {
        assert(a[0].end < a[i].start);
    }
}

proof fn lemma_first_end_not_below(a: Seq<Range<usize>>, b: Seq<Range<usize>>)
    requires
        is_merged(a),
        is_merged(b),
        same_coverage(a, b),
        a.len() > 0,
        b.len() > 0,
        a[0].start == b[0].start,
    ensures
        a[0].end >= b[0].end,
{
    lemma_merged_ordered(a);
    let ea = a[0].end as int;
    if ea < b[0].end {
        assert(range_contains(b[0], ea));
        assert(covers(b, ea));
        assert(covers(a, ea));
        let q = choose|q: int| 0 <= q < a.len() && range_contains(#[trigger] a[q], ea);
        if q > 0 {
            assert(a[0].end < a[q].start);
        }
    }
}

/// Two merged range lists that cover the same indices are equal: the result
/// of `merge_ranges` is determined by the indices its input covers.
pub proof fn lemma_merged_unique(a: Seq<Range<usize>>, b: Seq<Range<usize>>)
    requires
        is_merged(a),
        is_merged(b),
        same_coverage(a, b),
    ensures
        a == b,
    decreases a.len(),
{
    if a.len() == 0 || b.len() == 0 {
        if a.len() > 0 {
            assert(range_contains(a[0], a[0].start as int));
            assert(covers(a, a[0].start as int));
        }
        if b.len() > 0 {
            assert(range_contains(b[0], b[0].start as int));
            assert(covers(b, b[0].start as int));
        }
        assert(a =~= b);
    } else {
        lemma_same_first_start(a, b);
        lemma_first_end_not_below(a, b);
        lemma_first_end_not_below(b, a);
        assert(a[0] == b[0]);
        assert forall|p: int| covers(a.drop_first(), p) <==> covers(b.drop_first(), p) by {
            lemma_tail_coverage(a, p);
            lemma_tail_coverage(b, p);
        }
        lemma_merged_unique(a.drop_first(), b.drop_first());
        assert(a =~= seq![a[0]] + a.drop_first());
        assert(b =~= seq![b[0]] + b.drop_first());
    }
}

/// Drops the empty ranges of `ranges`, keeping the others in their order.
fn retain_non_empty(ranges: &mut Vec<Range<usize>>)
    ensures
        forall|i: int| 0 <= i < final(ranges)@.len() ==> (#[trigger] final(ranges)@[i]).start < final(ranges)@[i].end,
        same_coverage(final(ranges)@, old(ranges)@),
{
    let ghost given = ranges@;
    let mut kept: Vec<Range<usize>> = Vec::new();
    let mut i: usize = 0;
    while i < ranges.len()
        invariant
            ranges@ == given,
            0 <= i <= ranges.len(),
            forall|k: int| 0 <= k < kept@.len() ==> (#[trigger] kept@[k]).start < kept@[k].end,
            forall|p: int| covers(kept@, p) <==> covers(given.take(i as int), p),
        decreases ranges.len() - i,
    {
        let r = ranges[i].start..ranges[i].end;
        let ghost before = kept@;
        if r.start < r.end {
            kept.push(r);
        }
        assert forall|p: int| covers(kept@, p) <==> covers(given.take(i + 1), p) by {
            if covers(kept@, p) {
                let k = choose|k: int| 0 <= k < kept@.len() && range_contains(#[trigger] kept@[k], p);
                if k < before.len() {
                    assert(range_contains(before[k], p));
                    assert(covers(before, p));
                    let j = choose|j: int| 0 <= j < i && range_contains(#[trigger] given.take(i as int)[j], p);
                    assert(given.take(i + 1)[j] == given.take(i as int)[j]);
                } else {
                    assert(given.take(i + 1)[i as int] == given[i as int]);
                }
            }
            if covers(given.take(i + 1), p) {
                let j = choose|j: int| 0 <= j < i + 1 && range_contains(#[trigger] given.take(i + 1)[j], p);
                if j < i {
                    assert(given.take(i as int)[j] == given.take(i + 1)[j]);
                    assert(covers(given.take(i as int), p));
                    assert(covers(before, p));
                    let k = choose|k: int| 0 <= k < before.len() && range_contains(#[trigger] before[k], p);
                    assert(kept@[k] == before[k]);
                } else {
                    assert(kept@[kept@.len() - 1] == r);
                }
            }
        }
        i = i + 1;
    }
    assert(given.take(given.len() as int) =~= given);
    *ranges = kept;
}

/// Sorts `ranges` by their start (insertion sort).
fn sort_by_start(ranges: &mut Vec<Range<usize>>)
    ensures
        final(ranges)@.len() == old(ranges)@.len(),
        sorted_by_start(final(ranges)@),
        all_in(final(ranges)@, old(ranges)@),
        all_in(old(ranges)@, final(ranges)@),
{
    let ghost given = ranges@;
    let mut sorted: Vec<Range<usize>> = Vec::new();
    let mut i: usize = 0;
    while i < ranges.len()
        invariant
            ranges@ == given,
            0 <= i <= ranges.len(),
            sorted@.len() == i,
            sorted_by_start(sorted@),
            all_in(sorted@, given.take(i as int)),
            all_in(given.take(i as int), sorted@),
        decreases ranges.len() - i,
    {
        let r = ranges[i].start..ranges[i].end;
        let mut pos: usize = sorted.len();
        while pos > 0 && sorted[pos - 1].start > r.start
            invariant
                0 <= pos <= sorted@.len(),
                forall|k: int| pos <= k < sorted@.len() ==> (#[trigger] sorted@[k]).start > r.start,
            decreases pos,
        {
            pos = pos - 1;
        }
        let ghost before = sorted@;
        sorted.insert(pos, r.start..r.end);
        assert(sorted@ == before.insert(pos as int, r));
        assert forall|a: int, b: int| 0 <= a <= b < sorted@.len() implies (#[trigger] sorted@[a]).start
            <= (#[trigger] sorted@[b]).start by {
            if a < pos && b > pos {
                assert(before[a].start <= before[b - 1].start);
            } else if a < pos && b == pos {
                assert(before[a].start <= before[pos - 1].start);
            } else if a == pos && b > pos {
            } else if a > pos {
                assert(before[a - 1].start <= before[b - 1].start);
            }
        }
        assert forall|k: int| 0 <= k < sorted@.len() implies given.take(i + 1).contains(
            #[trigger] sorted@[k],
        ) by {
            if k < pos {
                assert(given.take(i as int).contains(before[k]));
                let j = choose|j: int| 0 <= j < i && given.take(i as int)[j] == before[k];
                assert(given.take(i + 1)[j] == given.take(i as int)[j]);
            } else if k == pos {
                assert(given.take(i + 1)[i as int] == r);
            } else {
                assert(sorted@[k] == before[k - 1]);
                assert(given.take(i as int).contains(before[k - 1]));
                let j = choose|j: int| 0 <= j < i && given.take(i as int)[j] == before[k - 1];
                assert(given.take(i + 1)[j] == given.take(i as int)[j]);
            }
        }
        assert forall|k: int| 0 <= k < given.take(i + 1).len() implies sorted@.contains(
            #[trigger] given.take(i + 1)[k],
        ) by {
            if k < i {
                assert(given.take(i + 1)[k] == given.take(i as int)[k]);
                assert(before.contains(given.take(i as int)[k]));
                let j = choose|j: int| 0 <= j < before.len() && before[j] == given.take(i as int)[k];
                if j < pos {
                    assert(sorted@[j] == before[j]);
                } else {
                    assert(sorted@[j + 1] == before[j]);
                }
            } else {
                assert(sorted@[pos as int] == r);
            }
        }
        i = i + 1;
    }
    assert(given.take(given.len() as int) =~= given);
    *ranges = sorted;
}

/// Merges the ranges of `ranges` in place: empty ranges are dropped, and
/// ranges that overlap or touch are combined, so that the result lists the
/// maximal runs of covered indices in increasing order.
pub fn merge_ranges(ranges: &mut Vec<Range<usize>>)
    ensures
        is_merged(final(ranges)@),
        same_coverage(final(ranges)@, old(ranges)@),
{
    let ghost given = ranges@;
    retain_non_empty(ranges);
    let ghost non_empty = ranges@;
    sort_by_start(ranges);
    let ghost sorted = ranges@;
    proof {
        lemma_all_in_coverage(sorted, non_empty);
        assert forall|k: int| 0 <= k < sorted.len() implies (#[trigger] sorted[k]).start < sorted[k].end by {
            assert(non_empty.contains(sorted[k]));
        }
    }
    let mut merged: Vec<Range<usize>> = Vec::new();
    let mut i: usize = 0;
    while i < ranges.len()
        invariant
            ranges@ == sorted,
            sorted_by_start(sorted),
            forall|k: int| 0 <= k < sorted.len() ==> (#[trigger] sorted[k]).start < sorted[k].end,
            0 <= i <= ranges.len(),
            is_merged(merged@),
            merged@.len() <= i,
            i > 0 ==> merged@.len() > 0,
            i > 0 ==> merged@.last().start <= sorted[i - 1].start,
            forall|p: int| covers(merged@, p) <==> covers(sorted.take(i as int), p),
        decreases ranges.len() - i,
    {
        let r = ranges[i].start..ranges[i].end;
        let ghost before = merged@;
        let n = merged.len();
        if n > 0 && r.start <= merged[n - 1].end {
            let last_start = merged[n - 1].start;
            let last_end = merged[n - 1].end;
            let new_end = if r.end > last_end { r.end } else { last_end };
            merged.set(n - 1, last_start..new_end);
            assert forall|p: int| covers(merged@, p) <==> covers(sorted.take(i + 1), p) by {
                if covers(merged@, p) {
                    let k = choose|k: int| 0 <= k < merged@.len() && range_contains(#[trigger] merged@[k], p);
                    if k < n - 1 {
                        assert(range_contains(before[k], p));
                        assert(covers(before, p));
                        let j = choose|j: int| 0 <= j < i && range_contains(#[trigger] sorted.take(i as int)[j], p);
                        assert(sorted.take(i + 1)[j] == sorted.take(i as int)[j]);
                    } else if p < last_end {
                        assert(range_contains(before[k], p));
                        assert(covers(before, p));
                        let j = choose|j: int| 0 <= j < i && range_contains(#[trigger] sorted.take(i as int)[j], p);
                        assert(sorted.take(i + 1)[j] == sorted.take(i as int)[j]);
                    } else {
                        assert(sorted.take(i + 1)[i as int] == r);
                        assert(range_contains(sorted.take(i + 1)[i as int], p));
                    }
                }
                if covers(sorted.take(i + 1), p) {
                    let j = choose|j: int| 0 <= j < i + 1 && range_contains(#[trigger] sorted.take(i + 1)[j], p);
                    if j < i {
                        assert(sorted.take(i as int)[j] == sorted.take(i + 1)[j]);
                        assert(covers(sorted.take(i as int), p));
                        assert(covers(before, p));
                        let k = choose|k: int| 0 <= k < before.len() && range_contains(#[trigger] before[k], p);
                        if k < n - 1 {
                            assert(merged@[k] == before[k]);
                        } else {
                            assert(range_contains(merged@[k], p));
                        }
                    } else {
                        assert(sorted.take(i + 1)[j] == r);
                        assert(sorted[i - 1].start <= r.start);
                        assert(range_contains(merged@[n - 1], p));
                    }
                }
            }
        } else {
            merged.push(r.start..r.end);
            assert forall|p: int| covers(merged@, p) <==> covers(sorted.take(i + 1), p) by {
                if covers(merged@, p) {
                    let k = choose|k: int| 0 <= k < merged@.len() && range_contains(#[trigger] merged@[k], p);
                    if k < n {
                        assert(range_contains(before[k], p));
                        assert(covers(before, p));
                        let j = choose|j: int| 0 <= j < i && range_contains(#[trigger] sorted.take(i as int)[j], p);
                        assert(sorted.take(i + 1)[j] == sorted.take(i as int)[j]);
                    } else {
                        assert(sorted.take(i + 1)[i as int] == r);
                        assert(range_contains(sorted.take(i + 1)[i as int], p));
                    }
                }
                if covers(sorted.take(i + 1), p) {
                    let j = choose|j: int| 0 <= j < i + 1 && range_contains(#[trigger] sorted.take(i + 1)[j], p);
                    if j < i {
                        assert(sorted.take(i as int)[j] == sorted.take(i + 1)[j]);
                        assert(covers(sorted.take(i as int), p));
                        assert(covers(before, p));
                        let k = choose|k: int| 0 <= k < before.len() && range_contains(#[trigger] before[k], p);
                        assert(merged@[k] == before[k]);
                    } else {
                        assert(merged@[n as int] == r);
                    }
                }
            }
        }
        i = i + 1;
    }
    assert(sorted.take(sorted.len() as int) =~= sorted);
    *ranges = merged;
}

} // verus!
