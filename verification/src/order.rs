//! Stable sorting by a rank.
use vstd::prelude::*;
use vstd::multiset::Multiset;

verus! {

/// The views of a sequence of values.
pub open spec fn views_of<T: View>(s: Seq<T>) -> Seq<T::V> {
    s.map_values(|x: T| x@)
}

/// An item put into a sorted sequence: behind the items that rank before it,
/// in front of the others.
pub open spec fn insert_ranked<A>(x: A, s: Seq<A>, before: spec_fn(A, A) -> bool) -> Seq<A>
    decreases s.len(),
{
    if s.len() > 0 && before(s[0], x) {
        seq![s[0]] + insert_ranked(x, s.drop_first(), before)
    } else {
        seq![x] + s
    }
}

/// A sequence in the order of a rank. Items of equal rank keep their order.
pub open spec fn stable_sorted<A>(s: Seq<A>, before: spec_fn(A, A) -> bool) -> Seq<A>
    decreases s.len(),
{
    if s.len() == 0 {
        s
    } else {
        insert_ranked(s[0], stable_sorted(s.drop_first(), before), before)
    }
}

/// Whether `before` is an order up to ties on the items of a sequence.
pub open spec fn weakly_ordered<A>(s: Seq<A>, before: spec_fn(A, A) -> bool) -> bool {
    &&& forall|x: A, y: A|
        s.contains(x) && s.contains(y) && #[trigger] before(x, y) ==> !before(y, x)
    &&& forall|x: A, y: A, z: A|
        s.contains(x) && s.contains(y) && s.contains(z) && !#[trigger] before(x, y)
            && !#[trigger] before(y, z) ==> !before(x, z)
}

/// Whether no item ranks before an earlier one.
pub open spec fn sorted_by<A>(s: Seq<A>, before: spec_fn(A, A) -> bool) -> bool {
    forall|i: int, j: int| 0 <= i < j < s.len() ==> !before(#[trigger] s[j], #[trigger] s[i])
}

proof fn lemma_insert_at<A>(x: A, s: Seq<A>, before: spec_fn(A, A) -> bool, n: int)
    requires
        0 <= n <= s.len(),
        forall|j: int| 0 <= j < n ==> before(#[trigger] s[j], x),
        n < s.len() ==> !before(s[n], x),
    ensures
        insert_ranked(x, s, before) == s.insert(n, x),
    decreases n,
{
    if n == 0 {
        assert(s.insert(0, x) =~= seq![x] + s);
    } else {
        let t = s.drop_first();
        assert forall|j: int| 0 <= j < n - 1 implies before(#[trigger] t[j], x) by {
            assert(t[j] == s[j + 1]);
        }
        lemma_insert_at(x, t, before, n - 1);
        assert(before(s[0], x));
        assert(s.insert(n, x) =~= seq![s[0]] + t.insert(n - 1, x));
    }
}

proof fn lemma_insert_multiset<A>(x: A, s: Seq<A>, before: spec_fn(A, A) -> bool)
    ensures
        insert_ranked(x, s, before).to_multiset() == s.to_multiset().insert(x),
        insert_ranked(x, s, before).len() == s.len() + 1,
    decreases s.len(),
{
    broadcast use vstd::seq_lib::group_to_multiset_ensures;

    if s.len() > 0 && before(s[0], x) {
        let t = s.drop_first();
        lemma_insert_multiset(x, t, before);
        let tail = insert_ranked(x, t, before);
        vstd::seq_lib::lemma_multiset_commutative(seq![s[0]], tail);
        vstd::seq_lib::lemma_multiset_commutative(seq![s[0]], t);
        assert(seq![s[0]] + t =~= s);
        assert(insert_ranked(x, s, before).to_multiset() =~= s.to_multiset().insert(x));
    } else {
        vstd::seq_lib::lemma_multiset_commutative(seq![x], s);
        assert(seq![x].to_multiset() =~= Multiset::empty().insert(x)) by {
            assert(seq![x] =~= Seq::<A>::empty().push(x));
        }
        assert((seq![x] + s).to_multiset() =~= s.to_multiset().insert(x));
    }
}

/// Sorting keeps the items, each as often as it occurs.
pub proof fn law_sort_keeps_items<A>(s: Seq<A>, before: spec_fn(A, A) -> bool)
    ensures
        stable_sorted(s, before).to_multiset() == s.to_multiset(),
        stable_sorted(s, before).len() == s.len(),
        forall|x: A| #[trigger] stable_sorted(s, before).contains(x) <==> s.contains(x),
    decreases s.len(),
{
    broadcast use vstd::seq_lib::group_to_multiset_ensures;

    if s.len() > 0 {
        let t = s.drop_first();
        law_sort_keeps_items(t, before);
        lemma_insert_multiset(s[0], stable_sorted(t, before), before);
        vstd::seq_lib::lemma_multiset_commutative(seq![s[0]], t);
        assert(seq![s[0]] + t =~= s);
        assert(seq![s[0]].to_multiset() =~= Multiset::empty().insert(s[0])) by {
            assert(seq![s[0]] =~= Seq::<A>::empty().push(s[0]));
        }
        assert(stable_sorted(s, before).to_multiset() =~= s.to_multiset());
    }
    assert forall|x: A| #[trigger] stable_sorted(s, before).contains(x) <==> s.contains(x) by {
        assert(s.to_multiset().contains(x) <==> s.contains(x));
        assert(stable_sorted(s, before).to_multiset().contains(x) <==> stable_sorted(
            s,
            before,
        ).contains(x));
    }
}

proof fn lemma_insert_sorted<A>(x: A, s: Seq<A>, all: Seq<A>, before: spec_fn(A, A) -> bool)
    requires
        weakly_ordered(all, before),
        all.contains(x),
        forall|j: int| 0 <= j < s.len() ==> all.contains(#[trigger] s[j]),
        sorted_by(s, before),
    ensures
        sorted_by(insert_ranked(x, s, before), before),
        forall|j: int|
            0 <= j < s.len() + 1 ==> all.contains(#[trigger] insert_ranked(x, s, before)[j]),
        insert_ranked(x, s, before).len() == s.len() + 1,
    decreases s.len(),
{
    let r = insert_ranked(x, s, before);
    lemma_insert_multiset(x, s, before);
    if s.len() > 0 && before(s[0], x) {
        let t = s.drop_first();
        assert forall|j: int| 0 <= j < t.len() implies all.contains(#[trigger] t[j]) by {
            assert(t[j] == s[j + 1]);
        }
        assert forall|i: int, j: int| 0 <= i < j < t.len() implies !before(
            #[trigger] t[j],
            #[trigger] t[i],
        ) by {
            assert(t[j] == s[j + 1] && t[i] == s[i + 1]);
        }
        lemma_insert_sorted(x, t, all, before);
        let tail = insert_ranked(x, t, before);
        lemma_insert_multiset(x, t, before);
        assert forall|j: int| 0 <= j < tail.len() implies !before(#[trigger] tail[j], s[0]) by {
            lemma_insert_members(x, t, before, j);
            if tail[j] != x {
                let k = choose|k: int| 0 <= k < t.len() && t[k] == tail[j];
                assert(t[k] == s[k + 1]);
                assert(!before(s[k + 1], s[0]));
            }
        }
        assert forall|i: int, j: int| 0 <= i < j < r.len() implies !before(
            #[trigger] r[j],
            #[trigger] r[i],
        ) by {
            assert(r[j] == tail[j - 1]);
            if i > 0 {
                assert(r[i] == tail[i - 1]);
            }
        }
        assert forall|j: int| 0 <= j < r.len() implies all.contains(#[trigger] r[j]) by {
            if j > 0 {
                assert(r[j] == tail[j - 1]);
            }
        }
    } else {
        assert forall|i: int, j: int| 0 <= i < j < r.len() implies !before(
            #[trigger] r[j],
            #[trigger] r[i],
        ) by {
            assert(r[j] == s[j - 1]);
            if i > 0 {
                assert(r[i] == s[i - 1]);
            } else {
                // s[0] does not rank before x, and s[j - 1] not before s[0].
                if j - 1 > 0 {
                    assert(!before(s[j - 1], s[0]));
                    assert(!before(s[0], x));
                }
            }
        }
        assert forall|j: int| 0 <= j < r.len() implies all.contains(#[trigger] r[j]) by {
            if j > 0 {
                assert(r[j] == s[j - 1]);
            }
        }
    }
}

proof fn lemma_insert_members<A>(x: A, s: Seq<A>, before: spec_fn(A, A) -> bool, j: int)
    requires
        0 <= j < s.len() + 1,
    ensures
        insert_ranked(x, s, before)[j] == x || exists|k: int|
            0 <= k < s.len() && s[k] == insert_ranked(x, s, before)[j],
    decreases s.len(),
{
    let r = insert_ranked(x, s, before);
    lemma_insert_multiset(x, s, before);
    if s.len() > 0 && before(s[0], x) {
        lemma_insert_multiset(x, s.drop_first(), before);
        if j > 0 {
            assert(r[j] == insert_ranked(x, s.drop_first(), before)[j - 1]);
            lemma_insert_members(x, s.drop_first(), before, j - 1);
            if r[j] != x {
                let k = choose|k: int|
                    0 <= k < s.drop_first().len() && s.drop_first()[k] == insert_ranked(
                        x,
                        s.drop_first(),
                        before,
                    )[j - 1];
                assert(s[k + 1] == r[j]);
            }
        } else {
            assert(s[0] == r[0]);
        }
    } else if j > 0 {
        assert(s[j - 1] == r[j]);
    }
}

proof fn lemma_sorted_within<A>(s: Seq<A>, all: Seq<A>, before: spec_fn(A, A) -> bool)
    requires
        weakly_ordered(all, before),
        forall|j: int| 0 <= j < s.len() ==> all.contains(#[trigger] s[j]),
    ensures
        sorted_by(stable_sorted(s, before), before),
        forall|j: int|
            0 <= j < stable_sorted(s, before).len() ==> all.contains(
                #[trigger] stable_sorted(s, before)[j],
            ),
    decreases s.len(),
{
    if s.len() > 0 {
        let t = s.drop_first();
        assert forall|j: int| 0 <= j < t.len() implies all.contains(#[trigger] t[j]) by {
            assert(t[j] == s[j + 1]);
        }
        lemma_sorted_within(t, all, before);
        assert(all.contains(s[0]));
        lemma_insert_sorted(s[0], stable_sorted(t, before), all, before);
    }
}

/// Where the rank is an order up to ties, no item of the sorted sequence ranks
/// before an earlier one.
pub proof fn law_sort_orders<A>(s: Seq<A>, before: spec_fn(A, A) -> bool)
    requires
        weakly_ordered(s, before),
    ensures
        sorted_by(stable_sorted(s, before), before),
{
    lemma_sorted_within(s, s, before);
}

/// Values that have a rank by which they are sorted.
pub trait Ranked: View + Sized {
    /// Whether a value ranks before another one.
    spec fn ranks_before(a: Self::V, b: Self::V) -> bool;

    /// Whether this value ranks before the other one.
    fn is_before(&self, other: &Self) -> (res: bool)
        ensures
            res == Self::ranks_before(self@, other@),
    ;
}

/// Sorts by rank; items of equal rank keep their order.
pub fn sort_ranked<T: Ranked>(items: Vec<T>) -> (res: Vec<T>)
    ensures
        views_of(res@) == stable_sorted(
            views_of(items@),
            |a: T::V, b: T::V| T::ranks_before(a, b),
        ),
{
    let ghost all = views_of(items@);
    let ghost rank = |a: T::V, b: T::V| T::ranks_before(a, b);
    let mut rest = items;
    let mut out: Vec<T> = Vec::new();
    proof {
        assert(views_of(out@) =~= stable_sorted(all.skip(all.len() as int), rank));
    }
    while rest.len() > 0
        invariant
            rank == (|a: T::V, b: T::V| T::ranks_before(a, b)),
            rest.len() <= all.len(),
            views_of(rest@) == all.take(rest.len() as int),
            views_of(out@) == stable_sorted(all.skip(rest.len() as int), rank),
        decreases rest.len(),
    {
        let ghost n = rest.len() as int;
        let ghost held = rest@;
        match rest.pop() {
            Some(x) => {
                let mut i: usize = 0;
                while i < out.len() && out[i].is_before(&x)
                    invariant
                        i <= out.len(),
                        rank == (|a: T::V, b: T::V| T::ranks_before(a, b)),
                        forall|j: int| 0 <= j < i ==> rank(#[trigger] views_of(out@)[j], x@),
                    decreases out.len() - i,
                {
                    assert(views_of(out@)[i as int] == out@[i as int]@);
                    i = i + 1;
                }
                proof {
                    let tail = all.skip(n - 1);
                    assert(views_of(held)[n - 1] == x@);
                    assert(all.take(n)[n - 1] == all[n - 1]);
                    assert(tail[0] == x@);
                    assert(tail.drop_first() =~= all.skip(n));
                    if i < out.len() {
                        assert(views_of(out@)[i as int] == out@[i as int]@);
                    }
                    lemma_insert_at(x@, views_of(out@), rank, i as int);
                    assert(views_of(out@.insert(i as int, x)) =~= views_of(out@).insert(
                        i as int,
                        x@,
                    ));
                    assert(views_of(rest@) =~= all.take(n - 1)) by {
                        assert forall|j: int| 0 <= j < n - 1 implies views_of(rest@)[j]
                            == all.take(n - 1)[j] by {
                            assert(views_of(held)[j] == all.take(n)[j]);
                        }
                    }
                }
                out.insert(i, x);
            },
            None => {},
        }
    }
    proof {
        assert(all.skip(0) =~= all);
    }
    out
}

impl Ranked for String {
    open spec fn ranks_before(a: Seq<char>, b: Seq<char>) -> bool {
        crate::text::text_before(a, b)
    }

    fn is_before(&self, other: &Self) -> (res: bool) {
        crate::text::text_lt(self.as_str(), other.as_str())
    }
}

/// Sorted texts: no text comes before an earlier one.
pub open spec fn sorted_texts(s: Seq<Seq<char>>) -> Seq<Seq<char>> {
    stable_sorted(s, |a: Seq<char>, b: Seq<char>| crate::text::text_before(a, b))
}

} // verus!
