//! What sorting, fusing and searching promise, in terms of what goes in and what
//! comes out.
use crate::float::Single;
use crate::hybrid::{search_results, FilteredSearch};
use crate::memory::MemoryId;
use crate::order::{
    insert_ranked, law_sort_keeps_items, law_sort_orders, stable_sorted, weakly_ordered, Ranked,
};
use crate::query::{distinct, law_distinct};
use crate::search::{
    admitted, candidates_of, fetch_count, found_rows, fused, law_fusion_covers, opt_ids,
    place_in, positions, salience_or_default, scan_hits, text_matches, top, traced, with_scores,
    Fused, ScoredHit,
};
use vstd::prelude::*;

verus! {

// ---------------------------------------------------------------------------
// Sorting
// ---------------------------------------------------------------------------
/// Whether neither of two items ranks before the other one.
pub open spec fn tied<A>(before: spec_fn(A, A) -> bool, x: A) -> spec_fn(A) -> bool {
    |y: A| !before(x, y) && !before(y, x)
}

proof fn lemma_filter_first<A>(s: Seq<A>, keep: spec_fn(A) -> bool)
    requires
        s.len() > 0,
    ensures
        s.filter(keep) == if keep(s[0]) {
            seq![s[0]] + s.drop_first().filter(keep)
        } else {
            s.drop_first().filter(keep)
        },
    decreases s.len(),
{
    reveal(Seq::filter);
    let t = s.drop_first();
    if s.len() == 1 {
        assert(s.drop_last() =~= Seq::empty());
        assert(t =~= Seq::empty());
        assert(s.drop_last().filter(keep) =~= Seq::empty());
        assert(t.filter(keep) =~= Seq::empty());
        assert(s.filter(keep) =~= if keep(s[0]) {
            seq![s[0]] + t.filter(keep)
        } else {
            t.filter(keep)
        });
    } else {
        lemma_filter_first(s.drop_last(), keep);
        assert(s.drop_last().drop_first() =~= t.drop_last());
        assert(t.last() == s.last());
        assert(s.drop_last()[0] == s[0]);
        assert(s.filter(keep) =~= if keep(s[0]) {
            seq![s[0]] + t.filter(keep)
        } else {
            t.filter(keep)
        });
    }
}

proof fn lemma_insert_stable<A>(
    x: A,
    s: Seq<A>,
    all: Seq<A>,
    before: spec_fn(A, A) -> bool,
    y: A,
)
    requires
        weakly_ordered(all, before),
        all.contains(x),
        all.contains(y),
        forall|j: int| 0 <= j < s.len() ==> all.contains(#[trigger] s[j]),
    ensures
        insert_ranked(x, s, before).filter(tied(before, y)) == if tied(before, y)(x) {
            seq![x] + s.filter(tied(before, y))
        } else {
            s.filter(tied(before, y))
        },
    decreases s.len(),
{
    let keep = tied(before, y);
    let r = insert_ranked(x, s, before);
    if s.len() > 0 && before(s[0], x) {
        let t = s.drop_first();
        assert forall|j: int| 0 <= j < t.len() implies all.contains(#[trigger] t[j]) by {
            assert(t[j] == s[j + 1]);
        }
        lemma_insert_stable(x, t, all, before, y);
        lemma_filter_first(r, keep);
        lemma_filter_first(s, keep);
        assert(r.drop_first() =~= insert_ranked(x, t, before));
        assert(all.contains(s[0]));
        if keep(x) && keep(s[0]) {
            assert(!before(s[0], y) && !before(y, x));
            assert(!before(s[0], x));
        }
    } else {
        lemma_filter_first(r, keep);
        assert(r.drop_first() =~= s);
    }
}

proof fn lemma_stable<A>(s: Seq<A>, all: Seq<A>, before: spec_fn(A, A) -> bool, y: A)
    requires
        weakly_ordered(all, before),
        all.contains(y),
        forall|j: int| 0 <= j < s.len() ==> all.contains(#[trigger] s[j]),
    ensures
        stable_sorted(s, before).filter(tied(before, y)) == s.filter(tied(before, y)),
    decreases s.len(),
{
    if s.len() > 0 {
        let t = s.drop_first();
        assert forall|j: int| 0 <= j < t.len() implies all.contains(#[trigger] t[j]) by {
            assert(t[j] == s[j + 1]);
        }
        lemma_stable(t, all, before, y);
        let u = stable_sorted(t, before);
        law_sort_keeps_items(t, before);
        assert forall|j: int| 0 <= j < u.len() implies all.contains(#[trigger] u[j]) by {
            assert(u.contains(u[j]));
            let k = choose|k: int| 0 <= k < t.len() && t[k] == u[j];
            assert(all.contains(t[k]));
        }
        assert(all.contains(s[0]));
        lemma_insert_stable(s[0], u, all, before, y);
        lemma_filter_first(s, tied(before, y));
    }
}

/// Sorting keeps the order of the items that are tied with one another.
pub proof fn law_sort_stable<A>(s: Seq<A>, before: spec_fn(A, A) -> bool, x: A)
    requires
        weakly_ordered(s, before),
        s.contains(x),
    ensures
        stable_sorted(s, before).filter(tied(before, x)) == s.filter(tied(before, x)),
{
    lemma_stable(s, s, before, x);
}

/// Dropping repetitions keeps the order in which the items first occur: of two
/// items that are left, the first one occurs before the second one does.
pub proof fn law_distinct_order<A>(items: Seq<A>, i: int, j: int)
    requires
        0 <= i < j < distinct(items).len(),
    ensures
        exists|p: int|
            0 <= p < items.len() && #[trigger] items[p] == distinct(items)[i] && !items.take(
                p + 1,
            ).contains(distinct(items)[j]),
    decreases items.len(),
{
    let head = items.drop_last();
    let rest = distinct(head);
    let out = distinct(items);
    law_distinct(head);
    law_distinct(items);
    if j < rest.len() {
        law_distinct_order(head, i, j);
        let p = choose|p: int|
            0 <= p < head.len() && #[trigger] head[p] == rest[i] && !head.take(p + 1).contains(
                rest[j],
            );
        assert(items[p] == out[i]);
        assert(items.take(p + 1) =~= head.take(p + 1));
    } else {
        assert(rest.contains(rest[i]));
        let p = choose|p: int| 0 <= p < head.len() && head[p] == rest[i];
        assert(items[p] == out[i]);
        if items.take(p + 1).contains(out[j]) {
            let q = choose|q: int| 0 <= q < p + 1 && #[trigger] items.take(p + 1)[q] == out[j];
            assert(head[q] == out[j]);
            assert(head.contains(out[j]));
        }
    }
}

// ---------------------------------------------------------------------------
// Ranking
// ---------------------------------------------------------------------------
/// Ranking gives exactly as many hits as are wanted, all of them where there are
/// fewer. What it gives and what it leaves out are together what there was. Where
/// the scores are numbers, no hit scores lower than one behind it, and none lower
/// than one left out.
pub proof fn law_ranked(scored: Seq<ScoredHit>, k: nat) -> (rest: Seq<ScoredHit>)
    ensures
        top(scored, k).len() == if k < scored.len() {
            k
        } else {
            scored.len()
        },
        (top(scored, k) + rest).to_multiset() == scored.to_multiset(),
        (forall|i: int| 0 <= i < scored.len() ==> !(#[trigger] scored[i]).score.nan()) ==> {
            &&& forall|i: int, j: int|
                0 <= i < j < top(scored, k).len() ==> !(#[trigger] top(scored, k)[i]).score.less(
                    (#[trigger] top(scored, k)[j]).score,
                )
            &&& forall|i: int, j: int|
                0 <= i < top(scored, k).len() && 0 <= j < rest.len() ==> !(#[trigger] top(
                    scored,
                    k,
                )[i]).score.less((#[trigger] rest[j]).score)
        },
{
    let before = |a: ScoredHit, b: ScoredHit| ScoredHit::ranks_before(a, b);
    let sorted = stable_sorted(scored, before);
    law_sort_keeps_items(scored, before);
    let res = top(scored, k);
    let rest = sorted.skip(res.len() as int);
    assert(res + rest =~= sorted);
    if forall|i: int| 0 <= i < scored.len() ==> !(#[trigger] scored[i]).score.nan() {
        lemma_numbers_ordered(scored);
        law_sort_orders(scored, before);
        assert forall|i: int, j: int| 0 <= i < j < res.len() implies !(
        #[trigger] res[i]).score.less((#[trigger] res[j]).score) by {
            assert(!before(sorted[j], sorted[i]));
        }
        assert forall|i: int, j: int| 0 <= i < res.len() && 0 <= j < rest.len() implies !(
        #[trigger] res[i]).score.less((#[trigger] rest[j]).score) by {
            assert(!before(sorted[res.len() + j], sorted[i]));
        }
    }
    rest
}

/// Numbers are ordered by their values.
proof fn lemma_numbers_ordered(scored: Seq<ScoredHit>)
    requires
        forall|i: int| 0 <= i < scored.len() ==> !(#[trigger] scored[i]).score.nan(),
    ensures
        weakly_ordered(scored, |a: ScoredHit, b: ScoredHit| ScoredHit::ranks_before(a, b)),
{
    assert forall|x: ScoredHit| scored.contains(x) implies !x.score.nan() by {
        let j = choose|j: int| 0 <= j < scored.len() && scored[j] == x;
        assert(!scored[j].score.nan());
    }
}

/// Hits with equal scores keep their order: of the hits that have one score, the
/// first of those found are given.
pub proof fn law_ranked_ties(scored: Seq<ScoredHit>, k: nat, x: ScoredHit)
    requires
        forall|i: int| 0 <= i < scored.len() ==> !(#[trigger] scored[i]).score.nan(),
        scored.contains(x),
    ensures
        top(scored, k).filter(same_score(x)).is_prefix_of(scored.filter(same_score(x))),
{
    let before = |a: ScoredHit, b: ScoredHit| ScoredHit::ranks_before(a, b);
    let sorted = stable_sorted(scored, before);
    lemma_numbers_ordered(scored);
    law_sort_stable(scored, before, x);
    assert(tied(before, x) =~= same_score(x));
    let n = top(scored, k).len() as int;
    lemma_take_filter(sorted, n, same_score(x));
}

/// Whether a hit scores neither higher nor lower than another one.
pub open spec fn same_score(x: ScoredHit) -> spec_fn(ScoredHit) -> bool {
    |y: ScoredHit| !x.score.less(y.score) && !y.score.less(x.score)
}

proof fn lemma_take_filter<A>(s: Seq<A>, n: int, keep: spec_fn(A) -> bool)
    requires
        0 <= n <= s.len(),
    ensures
        s.take(n).filter(keep).is_prefix_of(s.filter(keep)),
    decreases s.len(),
{
    reveal(Seq::filter);
    if n == s.len() {
        assert(s.take(n) =~= s);
    } else {
        lemma_take_filter(s.drop_last(), n, keep);
        assert(s.drop_last().take(n) =~= s.take(n));
        let short = s.take(n).filter(keep);
        let mid = s.drop_last().filter(keep);
        let long = s.filter(keep);
        assert(short =~= mid.subrange(0, short.len() as int));
        assert(short =~= long.subrange(0, short.len() as int));
    }
}

/// Each scored hit is the hit at its place with the score at its place.
pub proof fn law_scores_go_with_hits(hits: Seq<Fused>, scores: Seq<Single>)
    ensures
        with_scores(hits, scores).len() == hits.len(),
        forall|i: int|
            0 <= i < hits.len() ==> (#[trigger] with_scores(hits, scores)[i]).id == hits[i].id
                && with_scores(hits, scores)[i].score == scores[i],
{
}

/// A memory that is not there counts with a salience of one half.
pub proof fn law_salience_counted(s: Single)
    ensures
        salience_or_default(Some(s)) == s,
        salience_or_default(None).bits == 0x3f00_0000,
{
}

// ---------------------------------------------------------------------------
// Fusing
// ---------------------------------------------------------------------------
/// The positions of an identity in a list are those where it stands, in rising
/// order.
pub proof fn law_positions(hits: Seq<MemoryId>, id: MemoryId)
    requires
        hits.len() <= usize::MAX,
    ensures
        forall|i: int, j: int|
            0 <= i < j < positions(hits, id).len() ==> (#[trigger] positions(hits, id)[i]) < (
            #[trigger] positions(hits, id)[j]),
        forall|i: int|
            0 <= i < positions(hits, id).len() ==> (#[trigger] positions(hits, id)[i]) < hits.len()
                && hits[positions(hits, id)[i] as int] == id,
        forall|p: usize|
            p < hits.len() && hits[p as int] == id ==> #[trigger] positions(hits, id).contains(p),
    decreases hits.len(),
{
    if hits.len() > 0 {
        let head = hits.drop_last();
        let rest = positions(head, id);
        let out = positions(hits, id);
        law_positions(head, id);
        assert forall|i: int| 0 <= i < out.len() implies (#[trigger] out[i]) < hits.len()
            && hits[out[i] as int] == id by {
            if i < rest.len() {
                assert(out[i] == rest[i]);
                assert(head[rest[i] as int] == id);
            }
        }
        assert forall|i: int, j: int| 0 <= i < j < out.len() implies (#[trigger] out[i]) < (
        #[trigger] out[j]) by {
            assert(out[i] == rest[i]);
            if j < rest.len() {
                assert(out[j] == rest[j]);
            }
        }
        assert forall|p: usize| p < hits.len() && hits[p as int] == id implies
            #[trigger] out.contains(p) by {
            if p < head.len() {
                assert(head[p as int] == id);
                assert(rest.contains(p));
                let k = choose|k: int| 0 <= k < rest.len() && rest[k] == p;
                assert(out[k] == p);
            } else {
                assert(out[rest.len() as int] == p);
            }
        }
    }
}

/// A fused hit has its positions among the nearest memories, followed by those
/// among the matches of the text.
pub proof fn law_fused_ranks(a: Seq<MemoryId>, b: Seq<MemoryId>, i: int)
    requires
        0 <= i < fused(a, b).len(),
    ensures
        fused(a, b)[i].ranks == positions(a, fused(a, b)[i].id) + positions(b, fused(a, b)[i].id),
{
}

/// The filters that were asked for decide alone: none, one or both.
pub proof fn law_candidates(by_tags: Seq<MemoryId>, by_time: Seq<MemoryId>)
    ensures
        candidates_of(None, None) is None,
        candidates_of(Some(by_tags), None) == Some(by_tags),
        candidates_of(None, Some(by_time)) == Some(by_time),
        candidates_of(Some(by_tags), Some(by_time)) is Some,
{
}

/// A search fetches at least as many hits as are wanted. It fetches that many times
/// the multiplier, as far as that can be counted.
pub proof fn law_fetch_count(k: usize, multiplier: usize)
    ensures
        fetch_count(k, multiplier) >= k,
        multiplier <= 1 ==> fetch_count(k, multiplier) == k,
        multiplier >= 1 && k * multiplier <= usize::MAX ==> fetch_count(k, multiplier) == k
            * multiplier,
        multiplier >= 1 && k * multiplier > usize::MAX ==> fetch_count(k, multiplier)
            == usize::MAX,
{
    assert(multiplier >= 1 ==> k * multiplier >= k) by (nonlinear_arith);
}

// ---------------------------------------------------------------------------
// Searching
// ---------------------------------------------------------------------------
/// Whether a search can give a memory: one of the lists that count holds it, and
/// every filter that was asked for admits it. The matches of a text count only
/// where there is a text.
pub open spec fn can_be_found(
    text: Option<Seq<char>>,
    by_tags: Option<Seq<MemoryId>>,
    by_time: Option<Seq<MemoryId>>,
    vector_hits: Seq<MemoryId>,
    text_hits: Seq<MemoryId>,
    id: MemoryId,
) -> bool {
    &&& vector_hits.contains(id) || (text is Some && text->0.len() > 0 && text_hits.contains(id))
    &&& by_tags is Some ==> by_tags->0.contains(id)
    &&& by_time is Some ==> by_time->0.contains(id)
}

/// The memories that are among some hits.
pub open spec fn hit_ids(hits: Seq<Fused>) -> Seq<MemoryId> {
    hits.map_values(|h: Fused| h.id)
}

proof fn lemma_admitted(all: Seq<Fused>, ids: Option<Seq<MemoryId>>, id: MemoryId)
    ensures
        hit_ids(admitted(all, ids)).contains(id) <==> hit_ids(all).contains(id) && (ids is Some
            ==> ids->0.contains(id)),
{
    let out = admitted(all, ids);
    match ids {
        Some(c) => {
            let keep = |h: Fused| c.contains(h.id);
            if hit_ids(out).contains(id) {
                let i = choose|i: int| 0 <= i < out.len() && hit_ids(out)[i] == id;
                all.lemma_filter_pred(keep, i);
                assert(out.contains(out[i]));
                all.lemma_filter_contains_rev(keep, out[i]);
                let p = choose|p: int| 0 <= p < all.len() && all[p] == out[i];
                assert(hit_ids(all)[p] == id);
            }
            if hit_ids(all).contains(id) && c.contains(id) {
                let p = choose|p: int| 0 <= p < all.len() && hit_ids(all)[p] == id;
                all.lemma_filter_contains(keep, p);
                let i = choose|i: int| 0 <= i < out.len() && out[i] == all[p];
                assert(hit_ids(out)[i] == id);
            }
        },
        None => {},
    }
}

/// A search gives exactly as many memories as are wanted, or all that it can give
/// where there are fewer.
pub proof fn law_search_count(
    f: FilteredSearch,
    by_tags: Option<Seq<MemoryId>>,
    by_time: Option<Seq<MemoryId>>,
    vector_hits: Seq<MemoryId>,
    text_hits: Seq<MemoryId>,
    scores: Seq<Single>,
    found: Set<MemoryId>,
)
    requires
        opt_ids(f.candidates) == candidates_of(by_tags, by_time),
        forall|id: MemoryId|
            #[trigger] found.contains(id) <==> can_be_found(
                crate::text::opt_view(f.search.request.query_text),
                by_tags,
                by_time,
                vector_hits,
                text_hits,
                id,
            ),
        scores.len() == found.len(),
    ensures
        search_results(f, vector_hits, text_hits, scores).len() == if f.search.request.k
            < found.len() {
            f.search.request.k as nat
        } else {
            found.len()
        },
        forall|i: int|
            0 <= i < search_results(f, vector_hits, text_hits, scores).len() ==> found.contains(
                (#[trigger] search_results(f, vector_hits, text_hits, scores)[i]).id,
            ),
        found.finite(),
{
    let near = f.near(vector_hits);
    let matching = f.matching(text_hits);
    let all = fused(near, matching);
    let c = opt_ids(f.candidates);
    let hits = admitted(all, c);
    let ids = hit_ids(hits);
    assert forall|id: MemoryId| ids.to_set().contains(id) <==> #[trigger] found.contains(id) by {
        lemma_admitted(all, c, id);
        law_fusion_covers(near, matching, id);
        assert(hit_ids(all).contains(id) <==> near.contains(id) || matching.contains(id)) by {
            if hit_ids(all).contains(id) {
                let p = choose|p: int| 0 <= p < all.len() && hit_ids(all)[p] == id;
                assert(all[p].id == id);
            }
            if near.contains(id) || matching.contains(id) {
                let p = choose|p: int| 0 <= p < all.len() && (#[trigger] all[p]).id == id;
                assert(hit_ids(all)[p] == id);
            }
        }
        if by_tags is Some && by_time is Some {
            crate::search::law_filters_intersect(by_tags->0, by_time->0, id);
        }
        if c is Some && c->0.len() == 0 {
            assert(!c->0.contains(id));
        }
        if !f.wants_hits() {
            assert(c->0 =~= Seq::empty());
            assert(!c->0.contains(id));
        }
    }
    assert(ids.to_set() =~= found);
    lemma_once(near, matching, c);
    ids.unique_seq_to_set();
    vstd::seq_lib::seq_to_set_is_finite(ids);
    let scored = with_scores(hits, scores);
    let rest = law_ranked(scored, f.search.request.k as nat);
    let res = search_results(f, vector_hits, text_hits, scores);
    let before = |a: ScoredHit, b: ScoredHit| ScoredHit::ranks_before(a, b);
    law_sort_keeps_items(scored, before);
    assert forall|i: int| 0 <= i < res.len() implies found.contains((#[trigger] res[i]).id) by {
        let sorted = stable_sorted(scored, before);
        assert(sorted.contains(sorted[i]));
        let p = choose|p: int| 0 <= p < scored.len() && scored[p] == res[i];
        assert(ids[p] == res[i].id);
        assert(ids.contains(res[i].id));
    }
}

proof fn lemma_once(a: Seq<MemoryId>, b: Seq<MemoryId>, c: Option<Seq<MemoryId>>)
    ensures
        hit_ids(admitted(fused(a, b), c)).no_duplicates(),
{
    let all = fused(a, b);
    law_fusion_covers(a, b, MemoryId { value: 0 });
    assert(hit_ids(all).no_duplicates()) by {
        assert forall|i: int, j: int| 0 <= i < all.len() && 0 <= j < all.len() && i != j implies
            hit_ids(all)[i] != hit_ids(all)[j] by {
            if i < j {
                assert(all[i].id != all[j].id);
            } else {
                assert(all[j].id != all[i].id);
            }
        }
    }
    match c {
        Some(ids) => {
            lemma_filter_ids(all, |h: Fused| ids.contains(h.id));
        },
        None => {},
    }
}

proof fn lemma_filter_ids(all: Seq<Fused>, keep: spec_fn(Fused) -> bool)
    requires
        hit_ids(all).no_duplicates(),
    ensures
        hit_ids(all.filter(keep)).no_duplicates(),
    decreases all.len(),
{
    reveal(Seq::filter);
    if all.len() > 0 {
        let head = all.drop_last();
        assert(hit_ids(head) =~= hit_ids(all).drop_last());
        lemma_filter_ids(head, keep);
        let out = head.filter(keep);
        if keep(all.last()) {
            assert(all.filter(keep) =~= out.push(all.last()));
            assert forall|i: int| 0 <= i < out.len() implies (#[trigger] out[i]).id
                != all.last().id by {
                assert(out.contains(out[i]));
                head.lemma_filter_contains_rev(keep, out[i]);
                let p = choose|p: int| 0 <= p < head.len() && head[p] == out[i];
                assert(hit_ids(all)[p] != hit_ids(all)[all.len() - 1]);
            }
            let ids = hit_ids(all.filter(keep));
            assert forall|i: int, j: int| 0 <= i < ids.len() && 0 <= j < ids.len() && i
                != j implies ids[i] != ids[j] by {
                if i < out.len() && j < out.len() {
                    assert(hit_ids(out)[i] != hit_ids(out)[j]);
                } else if i < out.len() {
                    assert(out[i].id != all.last().id);
                } else {
                    assert(out[j].id != all.last().id);
                }
            }
        }
    }
}

/// A search reads hits unless its filters admit nothing, and matches of its text
/// only where there is one.
pub proof fn law_search_reads(f: FilteredSearch, id: MemoryId)
    ensures
        f.candidates is None ==> f.wants_hits(),
        f.candidates is Some && f.candidates->0@.contains(id) ==> f.wants_hits(),
        f.candidates is Some && f.candidates->0@.len() == 0 ==> !f.wants_hits(),
        f.wants_text() <==> f.wants_hits() && f.search.request.query_text is Some
            && f.search.request.query_text->0@.len() > 0,
{
}

/// A scan scores every memory that the filters admit, each once and without a rank;
/// without filters it scores none.
pub proof fn law_scan_scores(ids: Seq<MemoryId>)
    ensures
        scan_hits(None).len() == 0,
        hit_ids(scan_hits(Some(ids))).no_duplicates(),
        hit_ids(scan_hits(Some(ids))).to_set() == ids.to_set(),
        forall|i: int|
            0 <= i < scan_hits(Some(ids)).len() ==> (#[trigger] scan_hits(Some(ids))[i]).ranks.len()
                == 0,
{
    law_distinct(ids);
    let out = hit_ids(scan_hits(Some(ids)));
    assert(out =~= distinct(ids));
    assert(out.to_set() =~= ids.to_set());
}

// ---------------------------------------------------------------------------
// Rows
// ---------------------------------------------------------------------------
/// A row of a nearest-neighbour read counts if and only if it has an identity and
/// that can be read. The rows that count stay in their order.
pub proof fn law_found_rows(rows: Seq<Option<Seq<char>>>)
    requires
        rows.len() <= usize::MAX,
    ensures
        forall|i: int, j: int|
            0 <= i < j < found_rows(rows).len() ==> (#[trigger] found_rows(rows)[i]).0 < (
            #[trigger] found_rows(rows)[j]).0,
        forall|i: int|
            0 <= i < found_rows(rows).len() ==> {
                let (p, id) = #[trigger] found_rows(rows)[i];
                &&& p < rows.len()
                &&& rows[p as int] is Some
                &&& crate::ids::uuid_value(rows[p as int]->0) is Some
                &&& id.value == crate::ids::uuid_value(rows[p as int]->0)->0 as u128
            },
        forall|p: int|
            0 <= p < rows.len() && (#[trigger] rows[p]) is Some && crate::ids::uuid_value(
                rows[p]->0,
            ) is Some ==> exists|i: int|
                0 <= i < found_rows(rows).len() && (#[trigger] found_rows(rows)[i]).0 == p,
    decreases rows.len(),
{
    if rows.len() > 0 {
        let head = rows.drop_last();
        let rest = found_rows(head);
        let out = found_rows(rows);
        law_found_rows(head);
        assert forall|i: int| 0 <= i < out.len() implies {
            let (p, id) = #[trigger] out[i];
            &&& p < rows.len()
            &&& rows[p as int] is Some
            &&& crate::ids::uuid_value(rows[p as int]->0) is Some
            &&& id.value == crate::ids::uuid_value(rows[p as int]->0)->0 as u128
        } by {
            if i < rest.len() {
                assert(out[i] == rest[i]);
                assert(head[rest[i].0 as int] == rows[rest[i].0 as int]);
            }
        }
        assert forall|i: int, j: int| 0 <= i < j < out.len() implies (#[trigger] out[i]).0 < (
        #[trigger] out[j]).0 by {
            assert(out[i] == rest[i]);
            if j < rest.len() {
                assert(out[j] == rest[j]);
            }
        }
        assert forall|p: int|
            0 <= p < rows.len() && (#[trigger] rows[p]) is Some && crate::ids::uuid_value(
                rows[p]->0,
            ) is Some implies exists|i: int|
            0 <= i < out.len() && (#[trigger] out[i]).0 == p by {
            if p < head.len() {
                assert(head[p] == rows[p]);
                let i = choose|i: int| 0 <= i < rest.len() && (#[trigger] rest[i]).0 == p;
                assert(out[i] == rest[i]);
            } else {
                assert(out[rest.len() as int].0 == p);
            }
        }
    }
}

/// The matches of a text are the memories of all rows, or none where one of the
/// rows could not be read.
pub proof fn law_text_matches(rows: Seq<Option<Seq<char>>>)
    ensures
        rows.contains(None) ==> text_matches(rows).len() == 0,
        !rows.contains(None) ==> text_matches(rows).len() == rows.len() && forall|i: int|
            0 <= i < rows.len() ==> (#[trigger] text_matches(rows)[i]).value
                == crate::ids::id_or_nil(rows[i]->0) as u128,
{
    if !rows.contains(None) {
        assert forall|i: int| 0 <= i < rows.len() implies (#[trigger] rows[i]) is Some by {
            assert(rows.contains(rows[i]));
        }
    }
}

// ---------------------------------------------------------------------------
// Traces
// ---------------------------------------------------------------------------
/// The place of a memory in a list is counted from 1, and is the last one where
/// it stands. It has none where it does not stand in the list.
pub proof fn law_place(hits: Seq<MemoryId>, id: MemoryId)
    requires
        hits.len() <= i64::MAX,
    ensures
        match place_in(hits, id) {
            Some(p) => 1 <= p <= hits.len() && hits[p - 1] == id && forall|j: int|
                p <= j < hits.len() ==> #[trigger] hits[j] != id,
            None => !hits.contains(id),
        },
    decreases hits.len(),
{
    if hits.len() > 0 && hits.last() != id {
        let head = hits.drop_last();
        law_place(head, id);
        match place_in(head, id) {
            Some(p) => {
                assert forall|j: int| p <= j < hits.len() implies #[trigger] hits[j] != id by {
                    if j < head.len() {
                        assert(head[j] != id);
                    }
                }
            },
            None => {
                if hits.contains(id) {
                    let j = choose|j: int| 0 <= j < hits.len() && hits[j] == id;
                    assert(head[j] == id);
                }
            },
        }
    }
}

/// A trace has one row for each result, in their order, numbered from 1, with the
/// score and the places of the memory in the two lists.
pub proof fn law_traced(
    scored: Seq<ScoredHit>,
    vector_hits: Seq<MemoryId>,
    text_hits: Seq<MemoryId>,
)
    requires
        scored.len() <= i64::MAX,
    ensures
        traced(scored, vector_hits, text_hits).len() == scored.len(),
        forall|i: int|
            0 <= i < scored.len() ==> {
                let row = #[trigger] traced(scored, vector_hits, text_hits)[i];
                &&& row.rank == i + 1
                &&& row.memory_id == scored[i].id
                &&& row.score == scored[i].score
                &&& row.vector_rank == place_in(vector_hits, scored[i].id)
                &&& row.bm25_rank == place_in(text_hits, scored[i].id)
            },
{
}

} // verus!
