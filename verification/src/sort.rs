//! Stable sorting of scene entries by their draw key.

use vstd::prelude::*;

verus! {

/// Values that are ordered by an integer key.
pub trait SortKey {
    /// The key by which the value is ordered.
    spec fn spec_sort_key(&self) -> int;

    /// Computes the key by which the value is ordered.
    fn sort_key(&self) -> (key: u64)
        ensures
            key == self.spec_sort_key(),
    ;
}

/// `x` inserted into `s` right after the last element (from the end) whose key
/// is not greater than that of `x`.
pub open spec fn insert_sorted<T: SortKey>(s: Seq<T>, x: T) -> Seq<T>
    decreases s.len(),
{
    if s.len() == 0 {
        seq![x]
    } else if s.last().spec_sort_key() <= x.spec_sort_key() {
        s.push(x)
    } else {
        insert_sorted(s.drop_last(), x).push(s.last())
    }
}

/// The stable sort of `s` by key: the elements of `s` inserted one after the
/// other, each after all elements with a key not greater than its own.
pub open spec fn stable_sort<T: SortKey>(s: Seq<T>) -> Seq<T>
    decreases s.len(),
{
    if s.len() == 0 {
        s
    } else {
        insert_sorted(stable_sort(s.drop_last()), s.last())
    }
}

/// `s` is ordered by key.
pub open spec fn sorted_by_key<T: SortKey>(s: Seq<T>) -> bool {
    forall|i: int, j: int|
        0 <= i <= j < s.len() ==> (#[trigger] s[i]).spec_sort_key() <= (#[trigger] s[j]).spec_sort_key()
}

/// Holds of the values whose key is `k`.
pub open spec fn has_key<T: SortKey>(k: int) -> spec_fn(T) -> bool {
    |x: T| x.spec_sort_key() == k
}

/// The elements of `s` whose key is `k`, in their order in `s`.
pub open spec fn with_key<T: SortKey>(s: Seq<T>, k: int) -> Seq<T> {
    s.filter(has_key(k))
}

/// `s` with its part `[start, end)` replaced by the stable sort of that part.
pub open spec fn sort_part<T: SortKey>(s: Seq<T>, start: int, end: int) -> Seq<T> {
    s.subrange(0, start) + stable_sort(s.subrange(start, end)) + s.subrange(end, s.len() as int)
}

proof fn lemma_stable_sort_len<T: SortKey>(s: Seq<T>)
    ensures
        stable_sort(s).len() == s.len(),
    decreases s.len(),
{
    if s.len() > 0 {
        lemma_stable_sort_len(s.drop_last());
        lemma_insert_sorted_len(stable_sort(s.drop_last()), s.last());
    }
}

proof fn lemma_insert_sorted_len<T: SortKey>(s: Seq<T>, x: T)
    ensures
        insert_sorted(s, x).len() == s.len() + 1,
    decreases s.len(),
{
    if s.len() > 0 && s.last().spec_sort_key() > x.spec_sort_key() {
        lemma_insert_sorted_len(s.drop_last(), x);
    }
}

proof fn lemma_filter_push<T>(s: Seq<T>, a: T, pred: spec_fn(T) -> bool)
    ensures
        s.push(a).filter(pred) == (if pred(a) {
            s.filter(pred).push(a)
        } else {
            s.filter(pred)
        }),
{
    reveal(Seq::filter);
    assert(s.push(a).drop_last() =~= s);
}

/// Every element of `insert_sorted(s, x)` is `x` or an element of `s`.
proof fn lemma_insert_sorted_elements<T: SortKey>(s: Seq<T>, x: T)
    ensures
        forall|i: int|
            0 <= i < insert_sorted(s, x).len() ==> #[trigger] insert_sorted(s, x)[i] == x || s.contains(
                insert_sorted(s, x)[i],
            ),
    decreases s.len(),
{
    lemma_insert_sorted_len(s, x);
    if s.len() > 0 && s.last().spec_sort_key() > x.spec_sort_key() {
        let t = s.drop_last();
        lemma_insert_sorted_elements(t, x);
        lemma_insert_sorted_len(t, x);
        assert forall|i: int| 0 <= i < insert_sorted(s, x).len() implies #[trigger] insert_sorted(s, x)[i] == x
            || s.contains(insert_sorted(s, x)[i]) by {
            if i < insert_sorted(t, x).len() {
                assert(insert_sorted(s, x)[i] == insert_sorted(t, x)[i]);
                if insert_sorted(t, x)[i] != x {
                    let j = choose|j: int| 0 <= j < t.len() && t[j] == insert_sorted(t, x)[i];
                    assert(s[j] == t[j]);
                }
            } else {
                assert(insert_sorted(s, x)[i] == s[s.len() - 1]);
            }
        }
    } else if s.len() > 0 {
        assert forall|i: int| 0 <= i < insert_sorted(s, x).len() implies #[trigger] insert_sorted(s, x)[i] == x
            || s.contains(insert_sorted(s, x)[i]) by {
            if i < s.len() {
                assert(insert_sorted(s, x)[i] == s[i]);
            }
        }
    }
}

/// Inserting into a sorted sequence keeps it sorted.
proof fn lemma_insert_sorted_sorted<T: SortKey>(s: Seq<T>, x: T)
    requires
        sorted_by_key(s),
    ensures
        sorted_by_key(insert_sorted(s, x)),
    decreases s.len(),
{
    lemma_insert_sorted_len(s, x);
    if s.len() == 0 {
    } else if s.last().spec_sort_key() <= x.spec_sort_key() {
        let r = insert_sorted(s, x);
        assert forall|i: int, j: int| 0 <= i <= j < r.len() implies (#[trigger] r[i]).spec_sort_key()
            <= (#[trigger] r[j]).spec_sort_key() by {
            if j == r.len() - 1 && i < j {
                assert(s[i].spec_sort_key() <= s[s.len() - 1].spec_sort_key());
            }
        }
    } else {
        let t = s.drop_last();
        let l = s.last();
        assert(sorted_by_key(t));
        lemma_insert_sorted_sorted(t, x);
        lemma_insert_sorted_elements(t, x);
        lemma_insert_sorted_len(t, x);
        let u = insert_sorted(t, x);
        let r = insert_sorted(s, x);
        assert(r == u.push(l));
        assert forall|i: int, j: int| 0 <= i <= j < r.len() implies (#[trigger] r[i]).spec_sort_key()
            <= (#[trigger] r[j]).spec_sort_key() by {
            if j == r.len() - 1 && i < j {
                assert(r[i] == u[i]);
                if u[i] != x {
                    let q = choose|q: int| 0 <= q < t.len() && t[q] == u[i];
                    assert(s[q] == t[q]);
                    assert(s[q].spec_sort_key() <= s[s.len() - 1].spec_sort_key());
                }
            } else if j < r.len() - 1 {
                assert(r[i] == u[i] && r[j] == u[j]);
            }
        }
    }
}

/// Inserting keeps, for each key, the elements with that key in the order
/// they have when `x` is appended.
proof fn lemma_insert_sorted_with_key<T: SortKey>(s: Seq<T>, x: T, k: int)
    ensures
        with_key(insert_sorted(s, x), k) == with_key(s.push(x), k),
    decreases s.len(),
{
    let pred = has_key::<T>(k);
    if s.len() == 0 {
        assert(insert_sorted(s, x) =~= s.push(x));
    }
    if s.len() > 0 && s.last().spec_sort_key() > x.spec_sort_key() {
        let t = s.drop_last();
        let l = s.last();
        lemma_insert_sorted_with_key(t, x, k);
        assert(s == t.push(l));
        lemma_filter_push(insert_sorted(t, x), l, pred);
        lemma_filter_push(t, x, pred);
        lemma_filter_push(t, l, pred);
        lemma_filter_push(t.push(l), x, pred);
        assert(with_key(insert_sorted(s, x), k) =~= with_key(s.push(x), k));
    }
}

/// The stable sort of `s` is ordered by key and keeps, for each key, the
/// elements with that key in their order in `s`: it is the stable sort.
pub proof fn lemma_stable_sort_is_stable<T: SortKey>(s: Seq<T>)
    ensures
        stable_sort(s).len() == s.len(),
        sorted_by_key(stable_sort(s)),
        forall|k: int| #[trigger] with_key(stable_sort(s), k) == with_key(s, k),
    decreases s.len(),
{
    lemma_stable_sort_len(s);
    if s.len() > 0 {
        let t = s.drop_last();
        let x = s.last();
        lemma_stable_sort_is_stable(t);
        lemma_insert_sorted_sorted(stable_sort(t), x);
        assert forall|k: int| #[trigger] with_key(stable_sort(s), k) == with_key(s, k) by {
            let pred = has_key::<T>(k);
            lemma_insert_sorted_with_key(stable_sort(t), x, k);
            lemma_filter_push(stable_sort(t), x, pred);
            lemma_filter_push(t, x, pred);
            assert(s == t.push(x));
            assert(stable_sort(s) == insert_sorted(stable_sort(t), x));
            assert(with_key(stable_sort(t), k) == with_key(t, k));
            assert(with_key(stable_sort(t).push(x), k) == with_key(t.push(x), k));
        }
    }
}

/// Two sequences ordered by key that hold, for every key, the same elements
/// with that key in the same order are equal: a stable sort has one result.
pub proof fn lemma_sorted_stable_unique<T: SortKey>(a: Seq<T>, b: Seq<T>)
    requires
        sorted_by_key(a),
        sorted_by_key(b),
        forall|k: int| #[trigger] with_key(a, k) == with_key(b, k),
    ensures
        a == b,
    decreases a.len() + b.len(),
{
    broadcast use vstd::seq_lib::group_filter_ensures;
    if a.len() == 0 || b.len() == 0 {
        if b.len() > 0 {
            lemma_in_own_key(b, 0);
            assert(with_key(a, b[0].spec_sort_key()).len() == 0) by {
                a.lemma_filter_len(has_key::<T>(b[0].spec_sort_key()));
            }
        }
        if a.len() > 0 {
            lemma_in_own_key(a, 0);
            assert(with_key(b, a[0].spec_sort_key()).len() == 0) by {
                b.lemma_filter_len(has_key::<T>(a[0].spec_sort_key()));
            }
        }
        assert(a =~= b);
    } else {
        let ka = a.last().spec_sort_key();
        let kb = b.last().spec_sort_key();
        lemma_key_bounded_by_last(a, b, kb);
        lemma_key_bounded_by_last(b, a, ka);
        let k = ka;
        let ta = a.drop_last();
        let tb = b.drop_last();
        assert(a == ta.push(a.last()));
        assert(b == tb.push(b.last()));
        assert(ka == kb);
        assert forall|key: int| #[trigger] with_key(ta, key) == with_key(tb, key) by {
            lemma_filter_push(ta, a.last(), has_key::<T>(key));
            lemma_filter_push(tb, b.last(), has_key::<T>(key));
            assert(with_key(a, key) == with_key(b, key));
            if key == k {
                assert(with_key(ta, key) =~= with_key(a, key).drop_last());
                assert(with_key(tb, key) =~= with_key(b, key).drop_last());
            }
        }
        lemma_filter_push(ta, a.last(), has_key::<T>(k));
        lemma_filter_push(tb, b.last(), has_key::<T>(k));
        assert(with_key(a, k) == with_key(b, k));
        assert(a.last() == with_key(a, k).last());
        assert(b.last() == with_key(b, k).last());
        lemma_sorted_stable_unique(ta, tb);
    }
}

/// The element at `i` is among the elements with its own key.
proof fn lemma_in_own_key<T: SortKey>(s: Seq<T>, i: int)
    requires
        0 <= i < s.len(),
    ensures
        with_key(s, s[i].spec_sort_key()).len() > 0,
{
    broadcast use vstd::seq_lib::group_filter_ensures;
    s.lemma_filter_contains(has_key::<T>(s[i].spec_sort_key()), i);
}

/// When `b`'s last element has key `k` and `a` holds, key by key, the same
/// elements as `b`, then `k` is at most the key of `a`'s last element.
proof fn lemma_key_bounded_by_last<T: SortKey>(a: Seq<T>, b: Seq<T>, k: int)
    requires
        sorted_by_key(a),
        a.len() > 0,
        b.len() > 0,
        b.last().spec_sort_key() == k,
        with_key(a, k) == with_key(b, k),
    ensures
        k <= a.last().spec_sort_key(),
{
    broadcast use vstd::seq_lib::group_filter_ensures;
    lemma_in_own_key(b, b.len() - 1);
    let f = with_key(a, k);
    assert(f.len() > 0);
    let e = f[0];
    assert(has_key::<T>(k)(e));
    assert(f.contains(e));
    a.lemma_filter_contains_rev(has_key::<T>(k), e);
    let q = choose|q: int| 0 <= q < a.len() && a[q] == e;
    assert(a[q].spec_sort_key() <= a[a.len() - 1].spec_sort_key());
}

/// No element of `s` has key `k`.
proof fn lemma_no_key<T: SortKey>(s: Seq<T>, k: int)
    requires
        forall|i: int| 0 <= i < s.len() ==> (#[trigger] s[i]).spec_sort_key() != k,
    ensures
        with_key(s, k) == Seq::<T>::empty(),
{
    broadcast use vstd::seq_lib::group_filter_ensures;
    let f = with_key(s, k);
    if f.len() > 0 {
        let e = f[0];
        assert(has_key::<T>(k)(e));
        assert(f.contains(e));
        s.lemma_filter_contains_rev(has_key::<T>(k), e);
    }
    assert(f =~= Seq::<T>::empty());
}

/// Merges two sequences ordered by key, taking from `a` first among equal
/// keys.
fn merge<T: SortKey + Copy>(a: &Vec<T>, b: &Vec<T>) -> (out: Vec<T>)
    requires
        sorted_by_key(a@),
        sorted_by_key(b@),
    ensures
        out@.len() == a@.len() + b@.len(),
        sorted_by_key(out@),
        forall|k: int| #[trigger] with_key(out@, k) == with_key(a@, k) + with_key(b@, k),
{
    let mut out: Vec<T> = Vec::new();
    let mut i: usize = 0;
    let mut j: usize = 0;
    proof {
        assert forall|k: int| #[trigger] with_key(out@, k) == with_key(a@.take(0), k) + with_key(b@.take(0), k) by {
            assert(a@.take(0) =~= Seq::<T>::empty());
            assert(b@.take(0) =~= Seq::<T>::empty());
            lemma_no_key(Seq::<T>::empty(), k);
        }
    }
    while i < a.len() || j < b.len()
        invariant
            i <= a@.len(),
            j <= b@.len(),
            out@.len() == i + j,
            sorted_by_key(a@),
            sorted_by_key(b@),
            sorted_by_key(out@),
            forall|k: int| #[trigger] with_key(out@, k) == with_key(a@.take(i as int), k) + with_key(b@.take(j as int), k),
            out@.len() > 0 && i < a@.len() ==> out@.last().spec_sort_key() <= a@[i as int].spec_sort_key(),
            out@.len() > 0 && j < b@.len() ==> out@.last().spec_sort_key() <= b@[j as int].spec_sort_key(),
            i < a@.len() ==> forall|q: int| 0 <= q < j ==> (#[trigger] b@[q]).spec_sort_key() < a@[i as int].spec_sort_key(),
        decreases a@.len() + b@.len() - i - j,
    {
        let take_a = if j == b.len() {
            true
        } else if i == a.len() {
            false
        } else {
            a[i].sort_key() <= b[j].sort_key()
        };
        let ghost before = out@;
        if take_a {
            let x = a[i];
            out.push(x);
            proof {
                assert(a@.take(i + 1) == a@.take(i as int).push(x));
                assert(out@ == before.push(x));
                assert forall|k: int| #[trigger] with_key(out@, k) == with_key(a@.take(i + 1), k) + with_key(b@.take(j as int), k) by {
                    assert(with_key(before, k) == with_key(a@.take(i as int), k) + with_key(b@.take(j as int), k));
                    lemma_filter_push(before, x, has_key::<T>(k));
                    lemma_filter_push(a@.take(i as int), x, has_key::<T>(k));
                    if k == x.spec_sort_key() {
                        assert forall|q: int| 0 <= q < b@.take(j as int).len() implies (#[trigger] b@.take(j as int)[q]).spec_sort_key() != k by {
                            assert(b@.take(j as int)[q] == b@[q]);
                        }
                        lemma_no_key(b@.take(j as int), k);
                        assert(with_key(before, k).push(x) =~= with_key(a@.take(i as int), k).push(x) + with_key(b@.take(j as int), k));
                    }
                }
                assert forall|p: int, q: int| 0 <= p <= q < out@.len() implies (#[trigger] out@[p]).spec_sort_key() <= (#[trigger] out@[q]).spec_sort_key() by {
                    if q == out@.len() - 1 && p < q {
                        assert(before[p].spec_sort_key() <= before.last().spec_sort_key());
                    }
                }
                if i + 1 < a@.len() {
                    assert(a@[i as int].spec_sort_key() <= a@[i + 1].spec_sort_key());
                }
            }
            i = i + 1;
        } else {
            let y = b[j];
            out.push(y);
            proof {
                assert(b@.take(j + 1) == b@.take(j as int).push(y));
                assert(out@ == before.push(y));
                assert forall|k: int| #[trigger] with_key(out@, k) == with_key(a@.take(i as int), k) + with_key(b@.take(j + 1), k) by {
                    assert(with_key(before, k) == with_key(a@.take(i as int), k) + with_key(b@.take(j as int), k));
                    lemma_filter_push(before, y, has_key::<T>(k));
                    lemma_filter_push(b@.take(j as int), y, has_key::<T>(k));
                    if k == y.spec_sort_key() {
                        assert(with_key(before, k).push(y) =~= with_key(a@.take(i as int), k) + with_key(b@.take(j as int), k).push(y));
                    }
                }
                assert forall|p: int, q: int| 0 <= p <= q < out@.len() implies (#[trigger] out@[p]).spec_sort_key() <= (#[trigger] out@[q]).spec_sort_key() by {
                    if q == out@.len() - 1 && p < q {
                        assert(before[p].spec_sort_key() <= before.last().spec_sort_key());
                    }
                }
                if j + 1 < b@.len() {
                    assert(b@[j as int].spec_sort_key() <= b@[j + 1].spec_sort_key());
                }
            }
            j = j + 1;
        }
    }
    proof {
        assert(a@.take(a@.len() as int) =~= a@);
        assert(b@.take(b@.len() as int) =~= b@);
    }
    out
}

/// Copies `v[start..end]` into a new vector.
fn copy_range<T: Copy>(v: &Vec<T>, start: usize, end: usize) -> (part: Vec<T>)
    requires
        start <= end <= v@.len(),
    ensures
        part@ == v@.subrange(start as int, end as int),
{
    let mut part: Vec<T> = Vec::new();
    let mut i: usize = start;
    while i < end
        invariant
            start <= i <= end <= v@.len(),
            part@ == v@.subrange(start as int, i as int),
        decreases end - i,
    {
        part.push(v[i]);
        proof {
            assert(part@ =~= v@.subrange(start as int, i + 1));
        }
        i = i + 1;
    }
    part
}

/// Sorts `v` stably by key (merge sort).
fn merge_sort<T: SortKey + Copy>(v: Vec<T>) -> (out: Vec<T>)
    ensures
        out@.len() == v@.len(),
        sorted_by_key(out@),
        forall|k: int| #[trigger] with_key(out@, k) == with_key(v@, k),
    decreases v@.len(),
{
    let len = v.len();
    if len <= 1 {
        return v;
    }
    let mid = len / 2;
    let left = copy_range(&v, 0, mid);
    let right = copy_range(&v, mid, len);
    proof {
        assert(v@ =~= left@ + right@);
    }
    let sorted_left = merge_sort(left);
    let sorted_right = merge_sort(right);
    let out = merge(&sorted_left, &sorted_right);
    proof {
        assert forall|k: int| #[trigger] with_key(out@, k) == with_key(v@, k) by {
            vstd::seq::Seq::filter_distributes_over_add(left@, right@, has_key::<T>(k));
        }
    }
    out
}

/// Sorts the part `[start, end)` of `v` stably by key (merge sort), leaving
/// the rest of `v` as it is.
pub fn sort_range<T: SortKey + Copy>(v: &mut Vec<T>, start: usize, end: usize)
    requires
        start <= end <= old(v)@.len(),
    ensures
        final(v)@ == sort_part(old(v)@, start as int, end as int),
{
    let ghost orig = v@;
    let part = copy_range(v, start, end);
    let sorted = merge_sort(part);
    proof {
        lemma_stable_sort_is_stable(part@);
        lemma_sorted_stable_unique(sorted@, stable_sort(part@));
    }
    let mut k: usize = 0;
    while k < sorted.len()
        invariant
            start <= end <= orig.len(),
            sorted@.len() == end - start,
            v@.len() == orig.len(),
            0 <= k <= sorted@.len(),
            v@ == orig.subrange(0, start as int) + sorted@.take(k as int) + orig.subrange(start + k, orig.len() as int),
        decreases sorted@.len() - k,
    {
        v.set(start + k, sorted[k]);
        proof {
            assert(v@ =~= orig.subrange(0, start as int) + sorted@.take(k + 1) + orig.subrange(start + k + 1, orig.len() as int));
        }
        k = k + 1;
    }
    proof {
        assert(sorted@.take(sorted@.len() as int) =~= sorted@);
        assert(v@ =~= sort_part(orig, start as int, end as int));
    }
}

} // verus!
