//! Hybrid search: which candidates are asked for, how ranked lists are fused,
//! and what comes out.
//!
//! A search alternates between reads of the tables and decisions. The
//! decisions are the functions here, in the order in which a search takes
//! them: `begin_search`, `candidate_set`, `fused_candidates`, `finish_search`.
//! A scan, which has no query, takes `scanned_candidates` for
//! `fused_candidates`.
use crate::codec::{opt_signed, opt_time_to_column, signed_bits, usize_to_i64};
use crate::float::Single;
use crate::ids::{parse_id, parse_id_or_nil, uuid_value};
use crate::json::{json_list, json_list_text, list_from_json, list_to_json};
use crate::memory::{ErrorView, MemoryId, MenteError, Timestamp};
use crate::order::{
    law_sort_keeps_items, law_sort_orders, sort_ranked, stable_sorted, views_of, Ranked,
};
use crate::query::{distinct, has_id, law_distinct};
use crate::text::{copy_opt, copy_text, copy_texts, opt_view, views};
use vstd::prelude::*;

verus! {

/// Tunable retrieval parameters.
#[derive(Clone, Copy, Debug)]
pub struct RetrievalConfig {
    /// How many candidates to fetch before final filtering.
    pub fetch_multiplier: usize,
    /// Smoothing constant for vector and text rank fusion.
    pub rrf_k: Single,
    /// Weight applied to the fused rank score.
    pub rrf_weight: Single,
    /// Weight applied to stored salience.
    pub salience_weight: Single,
    /// Weight applied to the recency prior.
    pub recency_weight: Single,
    /// Fixed recency prior until a richer temporal prior is added.
    pub recency_prior: Single,
    /// Smoothing constant for multi-query recall.
    pub multi_query_rrf_k: Single,
    /// Maximum number of retrieval traces kept when tracing is enabled.
    pub trace_retention_limit: usize,
}

impl Default for RetrievalConfig {
    /// The constants are 60, the weights 0.7, 0.05 and 0.02, the prior 0.5.
    fn default() -> (res: Self)
        ensures
            res == (RetrievalConfig {
                fetch_multiplier: 4,
                rrf_k: Single { bits: 0x4270_0000 },
                rrf_weight: Single { bits: 0x3f33_3333 },
                salience_weight: Single { bits: 0x3d4c_cccd },
                recency_weight: Single { bits: 0x3ca3_d70a },
                recency_prior: Single { bits: 0x3f00_0000 },
                multi_query_rrf_k: Single { bits: 0x4270_0000 },
                trace_retention_limit: 200,
            }),
    {
        RetrievalConfig {
            fetch_multiplier: 4,
            rrf_k: Single { bits: 0x4270_0000 },
            rrf_weight: Single { bits: 0x3f33_3333 },
            salience_weight: Single { bits: 0x3d4c_cccd },
            recency_weight: Single { bits: 0x3ca3_d70a },
            recency_prior: Single { bits: 0x3f00_0000 },
            multi_query_rrf_k: Single { bits: 0x4270_0000 },
            trace_retention_limit: 200,
        }
    }
}

/// A memory with its score.
#[derive(Clone, Copy, Debug, PartialEq, Eq, Structural)]
pub struct ScoredHit {
    pub id: MemoryId,
    pub score: Single,
}

impl View for ScoredHit {
    type V = ScoredHit;

    open spec fn view(&self) -> ScoredHit {
        *self
    }
}

impl Ranked for ScoredHit {
    /// The higher score comes first.
    open spec fn ranks_before(a: ScoredHit, b: ScoredHit) -> bool {
        b.score.less(a.score)
    }

    fn is_before(&self, other: &Self) -> (res: bool) {
        other.score.lt(self.score)
    }
}

/// What is searched for.
#[derive(Debug)]
pub struct SearchRequest {
    /// Length of the query embedding.
    pub embedding_len: usize,
    pub query_text: Option<String>,
    pub tags: Option<Vec<String>>,
    /// Whether any of the tags will do, rather than all.
    pub tags_or: bool,
    pub time_range: Option<(Timestamp, Timestamp)>,
    /// How many memories are wanted.
    pub k: usize,
}

// ---------------------------------------------------------------------------
// Begin
// ---------------------------------------------------------------------------
/// How many candidates a search fetches.
pub open spec fn fetch_count(k: usize, multiplier: usize) -> int {
    let wanted = k * if multiplier > 1 {
        multiplier as int
    } else {
        1
    };
    if wanted <= usize::MAX {
        wanted
    } else {
        usize::MAX as int
    }
}

/// How many candidates a search fetches: `k` times the multiplier, which counts
/// as 1 where it is 0.
pub fn fetch_limit(k: usize, multiplier: usize) -> (res: usize)
    ensures
        res == fetch_count(k, multiplier),
        res >= k,
{
    let m: usize = if multiplier > 1 {
        multiplier
    } else {
        1
    };
    match k.checked_mul(m) {
        Some(n) => {
            proof {
                assert(k * m >= k) by (nonlinear_arith)
                    requires
                        m >= 1,
                        k >= 0,
                ;
            }
            n
        },
        None => usize::MAX,
    }
}

/// Whether a search can find anything at all.
pub fn begin_search(request: &SearchRequest) -> (res: bool)
    ensures
        res == (request.k != 0 && request.embedding_len != 0),
{
    !(request.k == 0 || request.embedding_len == 0)
}

/// Whether a nearest-neighbour read can find anything: something is wanted, the
/// query is not empty and there is an index.
pub fn knn_runs(k: usize, query_len: usize, dim: usize) -> (res: bool)
    ensures
        res == (k != 0 && query_len != 0 && dim != 0),
{
    !(k == 0 || query_len == 0 || dim == 0)
}

// ---------------------------------------------------------------------------
// Filters
// ---------------------------------------------------------------------------
/// The items of a list that a second list holds too.
pub open spec fn common(a: Seq<MemoryId>, b: Seq<MemoryId>) -> Seq<MemoryId> {
    a.filter(|id: MemoryId| b.contains(id))
}

pub open spec fn opt_ids(ids: Option<Vec<MemoryId>>) -> Option<Seq<MemoryId>> {
    match ids {
        Some(v) => Some(v@),
        None => None,
    }
}

/// The memories that the filters admit. Without filters there is no
/// restriction.
pub open spec fn candidates_of(
    by_tags: Option<Seq<MemoryId>>,
    by_time: Option<Seq<MemoryId>>,
) -> Option<Seq<MemoryId>> {
    match (by_tags, by_time) {
        (None, None) => None,
        (Some(t), None) => Some(t),
        (None, Some(w)) => Some(w),
        (Some(t), Some(w)) => Some(common(t, w)),
    }
}

/// The memories that the filters admit, from those that each filter admits.
pub fn candidate_set(by_tags: Option<Vec<MemoryId>>, by_time: Option<Vec<MemoryId>>) -> (res: Option<
    Vec<MemoryId>,
>)
    ensures
        opt_ids(res) == candidates_of(opt_ids(by_tags), opt_ids(by_time)),
{
    match (by_tags, by_time) {
        (None, None) => None,
        (Some(t), None) => Some(t),
        (None, Some(w)) => Some(w),
        (Some(t), Some(w)) => {
            let ghost keep = |id: MemoryId| w@.contains(id);
            let mut out: Vec<MemoryId> = Vec::new();
            proof {
                assert(t@.take(0).filter(keep) =~= Seq::empty()) by {
                    reveal(Seq::filter);
                }
            }
            for i in 0..t.len()
                invariant
                    keep == (|id: MemoryId| w@.contains(id)),
                    out@ == t@.take(i as int).filter(keep),
            {
                proof {
                    assert(t@.take(i + 1) =~= t@.take(i as int).push(t@[i as int]));
                    t@.take(i as int).lemma_filter_push(t@[i as int], keep);
                }
                if has_id(&w, t[i]) {
                    out.push(t[i]);
                }
            }
            proof {
                assert(t@.take(t.len() as int) =~= t@);
            }
            Some(out)
        },
    }
}

/// A memory passes two filters if and only if it passes each of them.
pub proof fn law_filters_intersect(by_tags: Seq<MemoryId>, by_time: Seq<MemoryId>, id: MemoryId)
    ensures
        candidates_of(Some(by_tags), Some(by_time))->0.contains(id) <==> by_tags.contains(id)
            && by_time.contains(id),
{
    let keep = |x: MemoryId| by_time.contains(x);
    let out = by_tags.filter(keep);
    if by_tags.contains(id) && by_time.contains(id) {
        let i = choose|i: int| 0 <= i < by_tags.len() && by_tags[i] == id;
        by_tags.lemma_filter_contains(keep, i);
    }
    if out.contains(id) {
        let i = choose|i: int| 0 <= i < out.len() && out[i] == id;
        by_tags.lemma_filter_pred(keep, i);
        by_tags.lemma_filter_contains_rev(keep, id);
    }
}

/// A window of column values, both ends included.
#[derive(Clone, Copy, Debug, PartialEq, Eq, Structural)]
pub struct TimeWindow {
    pub from: i64,
    pub to: i64,
}

/// Whether one of the windows holds a column value.
pub open spec fn in_windows(windows: Seq<TimeWindow>, v: int) -> bool {
    exists|i: int| 0 <= i < windows.len() && (#[trigger] windows[i]).from <= v <= windows[i].to
}

/// The windows of column values that hold the timestamps from `start` to `end`,
/// both included. Columns are signed, so the upper half of the timestamps lies
/// below 0 there.
pub fn time_windows(start: Timestamp, end: Timestamp) -> (res: Vec<TimeWindow>)
    ensures
        forall|t: Timestamp|
            in_windows(res@, #[trigger] signed_bits(t)) <==> start <= t <= end,
{
    let half: u64 = 0x8000_0000_0000_0000;
    let mut out: Vec<TimeWindow> = Vec::new();
    let low = start <= end && start < half;
    let high = start <= end && end >= half;
    if low {
        let last: u64 = if end < half {
            end
        } else {
            half - 1
        };
        out.push(
            TimeWindow {
                from: crate::codec::time_to_column(start),
                to: crate::codec::time_to_column(last),
            },
        );
    }
    if high {
        let first: u64 = if start >= half {
            start
        } else {
            half
        };
        out.push(
            TimeWindow {
                from: crate::codec::time_to_column(first),
                to: crate::codec::time_to_column(end),
            },
        );
    }
    proof {
        assert forall|t: Timestamp|
            in_windows(out@, #[trigger] signed_bits(t)) <==> start <= t <= end by {
            if start <= t <= end {
                if t < half {
                    assert(out@[0].from <= signed_bits(t) <= out@[0].to);
                } else {
                    let k = if low {
                        1int
                    } else {
                        0int
                    };
                    assert(out@[k].from <= signed_bits(t) <= out@[k].to);
                }
            }
        }
    }
    out
}

// ---------------------------------------------------------------------------
// Hits
// ---------------------------------------------------------------------------
/// The rows of a nearest-neighbour read whose memory still exists and has a
/// well-formed identity.
pub open spec fn found_rows(rows: Seq<Option<Seq<char>>>) -> Seq<(usize, MemoryId)>
    decreases rows.len(),
{
    if rows.len() == 0 {
        Seq::empty()
    } else {
        let rest = found_rows(rows.drop_last());
        match rows.last() {
            Some(s) => match uuid_value(s) {
                Some(v) => rest.push(((rows.len() - 1) as usize, MemoryId { value: v as u128 })),
                None => rest,
            },
            None => rest,
        }
    }
}

pub open spec fn opt_views(rows: Seq<Option<String>>) -> Seq<Option<Seq<char>>> {
    rows.map_values(|r: Option<String>| opt_view(r))
}

/// The rows of a nearest-neighbour read that stand for a memory, by position.
pub fn knn_rows(rows: &Vec<Option<String>>) -> (res: Vec<(usize, MemoryId)>)
    ensures
        res@ == found_rows(opt_views(rows@)),
{
    let ghost all = opt_views(rows@);
    let mut out: Vec<(usize, MemoryId)> = Vec::new();
    for i in 0..rows.len()
        invariant
            all == opt_views(rows@),
            out@ == found_rows(all.take(i as int)),
    {
        proof {
            assert(all.take(i + 1).drop_last() =~= all.take(i as int));
            assert(all[i as int] == opt_view(rows@[i as int]));
        }
        if let Some(s) = &rows[i] {
            if let Ok(id) = parse_id::<MemoryId>(s.as_str()) {
                out.push((i, id));
            }
        }
    }
    proof {
        assert(all.take(all.len() as int) =~= all);
    }
    out
}

/// The matches of a text search. A row that could not be read (the query text
/// is no valid match expression) voids the search.
pub open spec fn text_matches(rows: Seq<Option<Seq<char>>>) -> Seq<MemoryId> {
    if forall|i: int| 0 <= i < rows.len() ==> (#[trigger] rows[i]) is Some {
        rows.map_values(
            |r: Option<Seq<char>>| MemoryId { value: crate::ids::id_or_nil(r->0) as u128 },
        )
    } else {
        Seq::empty()
    }
}

/// The matches of a text search, none where a row could not be read.
pub fn fts_rows(rows: &Vec<Option<String>>) -> (res: Vec<MemoryId>)
    ensures
        res@ == text_matches(opt_views(rows@)),
{
    let ghost all = opt_views(rows@);
    let ghost as_id = |r: Option<Seq<char>>|
        MemoryId { value: crate::ids::id_or_nil(r->0) as u128 };
    let mut out: Vec<MemoryId> = Vec::new();
    for i in 0..rows.len()
        invariant
            all == opt_views(rows@),
            as_id == (|r: Option<Seq<char>>|
                MemoryId { value: crate::ids::id_or_nil(r->0) as u128 }),
            forall|j: int| 0 <= j < i ==> (#[trigger] all[j]) is Some,
            out@ == all.take(i as int).map_values(as_id),
    {
        assert(all[i as int] == opt_view(rows@[i as int]));
        match &rows[i] {
            Some(s) => {
                out.push(parse_id_or_nil::<MemoryId>(s.as_str()));
                assert(out@ =~= all.take(i + 1).map_values(as_id));
            },
            None => {
                assert(all[i as int] is None);
                let none: Vec<MemoryId> = Vec::new();
                assert(none@ =~= Seq::empty());
                return none;
            },
        }
    }
    proof {
        assert(all.take(all.len() as int) =~= all);
    }
    out
}

// ---------------------------------------------------------------------------
// Fusion
// ---------------------------------------------------------------------------
/// The positions at which a ranked list holds an identity.
pub open spec fn positions(hits: Seq<MemoryId>, id: MemoryId) -> Seq<usize>
    decreases hits.len(),
{
    if hits.len() == 0 {
        Seq::empty()
    } else {
        let rest = positions(hits.drop_last(), id);
        if hits.last() == id {
            rest.push((hits.len() - 1) as usize)
        } else {
            rest
        }
    }
}

/// A memory with its positions, counted from 0, in the lists that are fused.
/// Each position `r` adds `1 / (rrf_k + r)` to its score, in this order.
#[derive(Debug)]
pub struct FusedHit {
    pub id: MemoryId,
    pub ranks: Vec<usize>,
}

/// The mathematical form of a fused hit.
pub struct Fused {
    pub id: MemoryId,
    pub ranks: Seq<usize>,
}

impl View for FusedHit {
    type V = Fused;

    open spec fn view(&self) -> Fused {
        Fused { id: self.id, ranks: self.ranks@ }
    }
}

/// The fusion of one identity.
pub open spec fn fused_hit(a: Seq<MemoryId>, b: Seq<MemoryId>, id: MemoryId) -> Fused {
    Fused { id, ranks: positions(a, id) + positions(b, id) }
}

/// Two ranked lists made into one: each memory once, with all its positions.
pub open spec fn fused(a: Seq<MemoryId>, b: Seq<MemoryId>) -> Seq<Fused> {
    distinct(a + b).map_values(|id: MemoryId| fused_hit(a, b, id))
}

fn push_positions(hits: &Vec<MemoryId>, id: MemoryId, out: &mut Vec<usize>)
    ensures
        final(out)@ == old(out)@ + positions(hits@, id),
{
    let ghost start = out@;
    for i in 0..hits.len()
        invariant
            out@ == start + positions(hits@.take(i as int), id),
    {
        proof {
            assert(hits@.take(i + 1).drop_last() =~= hits@.take(i as int));
        }
        if hits[i] == id {
            out.push(i);
        }
        assert(out@ =~= start + positions(hits@.take(i + 1), id));
    }
    proof {
        assert(hits@.take(hits.len() as int) =~= hits@);
    }
}

fn push_distinct(hits: &Vec<MemoryId>, out: &mut Vec<MemoryId>, Ghost(seen): Ghost<Seq<MemoryId>>)
    requires
        old(out)@ == distinct(seen),
    ensures
        final(out)@ == distinct(seen + hits@),
{
    proof {
        assert(seen + hits@.take(0) =~= seen);
    }
    for i in 0..hits.len()
        invariant
            out@ == distinct(seen + hits@.take(i as int)),
    {
        proof {
            let now = seen + hits@.take(i + 1);
            assert(now.drop_last() =~= seen + hits@.take(i as int));
            assert(now.last() == hits@[i as int]);
        }
        if !has_id(out, hits[i]) {
            out.push(hits[i]);
        }
    }
    proof {
        assert(hits@.take(hits.len() as int) =~= hits@);
    }
}

/// Fuses the nearest memories with the best text matches.
pub fn fuse_hits(vector_hits: &Vec<MemoryId>, text_hits: &Vec<MemoryId>) -> (res: Vec<FusedHit>)
    ensures
        views_of(res@) == fused(vector_hits@, text_hits@),
{
    let mut ids: Vec<MemoryId> = Vec::new();
    proof {
        assert(ids@ =~= distinct(Seq::<MemoryId>::empty()));
        assert(Seq::<MemoryId>::empty() + vector_hits@ =~= vector_hits@);
    }
    push_distinct(vector_hits, &mut ids, Ghost(Seq::empty()));
    push_distinct(text_hits, &mut ids, Ghost(vector_hits@));
    let ghost make = |id: MemoryId| fused_hit(vector_hits@, text_hits@, id);
    let mut out: Vec<FusedHit> = Vec::new();
    for i in 0..ids.len()
        invariant
            make == (|id: MemoryId| fused_hit(vector_hits@, text_hits@, id)),
            views_of(out@) == ids@.take(i as int).map_values(make),
    {
        let ghost before = out@;
        let mut ranks: Vec<usize> = Vec::new();
        push_positions(vector_hits, ids[i], &mut ranks);
        push_positions(text_hits, ids[i], &mut ranks);
        let hit = FusedHit { id: ids[i], ranks };
        proof {
            assert(hit.ranks@ =~= positions(vector_hits@, ids@[i as int]) + positions(
                text_hits@,
                ids@[i as int],
            ));
        }
        out.push(hit);
        assert(views_of(out@) =~= views_of(before).push(hit@));
        assert(views_of(out@) =~= ids@.take(i + 1).map_values(make));
    }
    proof {
        assert(ids@.take(ids.len() as int) =~= ids@);
    }
    out
}

/// Fusion keeps every hit of either list, each memory once.
pub proof fn law_fusion_covers(a: Seq<MemoryId>, b: Seq<MemoryId>, id: MemoryId)
    ensures
        (exists|i: int| 0 <= i < fused(a, b).len() && (#[trigger] fused(a, b)[i]).id == id)
            <==> a.contains(id) || b.contains(id),
        forall|i: int, j: int|
            0 <= i < j < fused(a, b).len() ==> (#[trigger] fused(a, b)[i]).id != (
            #[trigger] fused(a, b)[j]).id,
{
    law_distinct(a + b);
    let ids = distinct(a + b);
    let f = fused(a, b);
    assert((a + b).contains(id) <==> a.contains(id) || b.contains(id)) by {
        if a.contains(id) {
            let k = choose|k: int| 0 <= k < a.len() && a[k] == id;
            assert((a + b)[k] == id);
        }
        if b.contains(id) {
            let k = choose|k: int| 0 <= k < b.len() && b[k] == id;
            assert((a + b)[a.len() + k] == id);
        }
        if (a + b).contains(id) {
            let k = choose|k: int| 0 <= k < (a + b).len() && (a + b)[k] == id;
            if k < a.len() {
                assert(a[k] == id);
            } else {
                assert(b[k - a.len()] == id);
            }
        }
    }
    if ids.contains(id) {
        let k = choose|k: int| 0 <= k < ids.len() && ids[k] == id;
        assert(f[k].id == id);
    }
    if exists|i: int| 0 <= i < f.len() && (#[trigger] f[i]).id == id {
        let k = choose|k: int| 0 <= k < f.len() && (#[trigger] f[k]).id == id;
        assert(ids[k] == id);
    }
    assert forall|i: int, j: int| 0 <= i < j < f.len() implies (#[trigger] f[i]).id != (
    #[trigger] f[j]).id by {
        assert(ids[i] != ids[j]);
    }
}

/// The fused hits that the filters admit.
pub open spec fn admitted(hits: Seq<Fused>, candidates: Option<Seq<MemoryId>>) -> Seq<Fused> {
    match candidates {
        Some(ids) => hits.filter(|h: Fused| ids.contains(h.id)),
        None => hits,
    }
}

/// Drops the fused hits that the filters do not admit. (The text search knows
/// nothing of the filters.)
pub fn keep_candidates(hits: Vec<FusedHit>, candidates: &Option<Vec<MemoryId>>) -> (res: Vec<
    FusedHit,
>)
    ensures
        views_of(res@) == admitted(views_of(hits@), opt_ids(*candidates)),
{
    match candidates {
        None => hits,
        Some(ids) => {
            let ghost all = views_of(hits@);
            let ghost keep = |h: Fused| ids@.contains(h.id);
            let mut out: Vec<FusedHit> = Vec::new();
            proof {
                assert(all.take(0).filter(keep) =~= Seq::empty()) by {
                    reveal(Seq::filter);
                }
                assert(views_of(out@) =~= Seq::empty());
            }
            for hit in it: hits
                invariant
                    keep == (|h: Fused| ids@.contains(h.id)),
                    all == views_of(it.seq()),
                    views_of(out@) == all.take(it.index() as int).filter(keep),
            {
                let ghost before = out@;
                proof {
                    let i = it.index() as int;
                    assert(all.take(i + 1) =~= all.take(i).push(hit@));
                    all.take(i).lemma_filter_push(hit@, keep);
                }
                if has_id(ids, hit.id) {
                    out.push(hit);
                    assert(views_of(out@) =~= views_of(before).push(hit@));
                }
            }
            proof {
                assert(all.take(all.len() as int) =~= all);
            }
            out
        },
    }
}

/// Fuses the two lists of hits and drops what the filters do not admit. Beside
/// the hits to score stands the number of memories that were fused.
pub fn fused_candidates(
    vector_hits: &Vec<MemoryId>,
    text_hits: &Vec<MemoryId>,
    candidates: &Option<Vec<MemoryId>>,
) -> (res: (Vec<FusedHit>, usize))
    ensures
        views_of(res.0@) == admitted(fused(vector_hits@, text_hits@), opt_ids(*candidates)),
        res.1 == fused(vector_hits@, text_hits@).len(),
{
    let hits = fuse_hits(vector_hits, text_hits);
    let count: usize = hits.len();
    proof {
        assert(views_of(hits@).len() == count);
    }
    (keep_candidates(hits, candidates), count)
}

/// What a scan scores: every memory that the filters admit, each once and with
/// no rank. A scan without filters has nothing to go by.
pub open spec fn scan_hits(candidates: Option<Seq<MemoryId>>) -> Seq<Fused> {
    match candidates {
        Some(ids) => distinct(ids).map_values(
            |id: MemoryId| Fused { id, ranks: Seq::<usize>::empty() },
        ),
        None => Seq::empty(),
    }
}

/// What a scan scores: every memory that the filters admit.
pub fn scanned_candidates(candidates: &Option<Vec<MemoryId>>) -> (res: Vec<FusedHit>)
    ensures
        views_of(res@) == scan_hits(opt_ids(*candidates)),
{
    let mut out: Vec<FusedHit> = Vec::new();
    proof {
        assert(views_of(out@) =~= Seq::empty());
    }
    match candidates {
        None => out,
        Some(all) => {
            let mut ids: Vec<MemoryId> = Vec::new();
            proof {
                assert(ids@ =~= distinct(Seq::<MemoryId>::empty()));
                assert(Seq::<MemoryId>::empty() + all@ =~= all@);
            }
            push_distinct(all, &mut ids, Ghost(Seq::empty()));
            let ghost make = |id: MemoryId| Fused { id, ranks: Seq::<usize>::empty() };
            for i in 0..ids.len()
                invariant
                    make == (|id: MemoryId| Fused { id, ranks: Seq::<usize>::empty() }),
                    views_of(out@) == ids@.take(i as int).map_values(make),
            {
                let ghost before = out@;
                let hit = FusedHit { id: ids[i], ranks: Vec::new() };
                out.push(hit);
                assert(views_of(out@) =~= views_of(before).push(hit@));
                assert(views_of(out@) =~= ids@.take(i + 1).map_values(make));
            }
            proof {
                assert(ids@.take(ids.len() as int) =~= ids@);
            }
            out
        },
    }
}

// ---------------------------------------------------------------------------
// Ranking
// ---------------------------------------------------------------------------
/// Hits in the order of their scores, the highest first, at most `k` of them.
pub open spec fn top(scored: Seq<ScoredHit>, k: nat) -> Seq<ScoredHit> {
    let sorted = stable_sorted(
        scored,
        |a: ScoredHit, b: ScoredHit| ScoredHit::ranks_before(a, b),
    );
    sorted.take(if k < sorted.len() {
        k as int
    } else {
        sorted.len() as int
    })
}

/// Ranks scored memories and keeps the best `k`.
pub fn rank_hits(scored: Vec<ScoredHit>, k: usize) -> (res: Vec<ScoredHit>)
    ensures
        res@ == top(scored@, k as nat),
{
    proof {
        assert(views_of(scored@) =~= scored@);
    }
    let mut sorted = sort_ranked(scored);
    proof {
        assert(views_of(sorted@) =~= sorted@);
        assert(sorted@.take(sorted.len() as int) =~= sorted@);
    }
    sorted.truncate(k);
    sorted
}

/// The best `k` memories of a brute-force similarity search.
pub fn nearest_ids(scored: Vec<ScoredHit>, k: usize) -> (res: Vec<MemoryId>)
    ensures
        res@ == top(scored@, k as nat).map_values(|h: ScoredHit| h.id),
{
    let best = rank_hits(scored, k);
    let mut out: Vec<MemoryId> = Vec::new();
    for i in 0..best.len()
        invariant
            out@ == best@.take(i as int).map_values(|h: ScoredHit| h.id),
    {
        out.push(best[i].id);
        assert(out@ =~= best@.take(i + 1).map_values(|h: ScoredHit| h.id));
    }
    proof {
        assert(best@.take(best.len() as int) =~= best@);
    }
    out
}

/// Fused hits with their scores.
pub open spec fn with_scores(hits: Seq<Fused>, scores: Seq<Single>) -> Seq<ScoredHit> {
    Seq::new(hits.len(), |i: int| ScoredHit { id: hits[i].id, score: scores[i] })
}

/// The result of a search: the fused hits in the order of the scores that they
/// were given, at most `k` of them.
pub fn finish_search(hits: &Vec<FusedHit>, scores: &Vec<Single>, k: usize) -> (res: Vec<ScoredHit>)
    requires
        hits@.len() == scores@.len(),
    ensures
        res@ == top(with_scores(views_of(hits@), scores@), k as nat),
{
    let ghost all = with_scores(views_of(hits@), scores@);
    let mut scored: Vec<ScoredHit> = Vec::new();
    for i in 0..hits.len()
        invariant
            hits@.len() == scores@.len(),
            all == with_scores(views_of(hits@), scores@),
            scored@ == all.take(i as int),
    {
        scored.push(ScoredHit { id: hits[i].id, score: scores[i] });
        assert(scored@ =~= all.take(i + 1));
    }
    proof {
        assert(all.take(all.len() as int) =~= all);
    }
    rank_hits(scored, k)
}

/// The salience of a memory that is not there.
pub open spec fn salience_or_default(salience: Option<Single>) -> Single {
    match salience {
        Some(s) => s,
        None => Single { bits: 0x3f00_0000 },
    }
}

/// The salience that a score counts: the stored one, 0.5 where there is none.
pub fn salience_for_score(salience: Option<Single>) -> (res: Single)
    ensures
        res == salience_or_default(salience),
{
    match salience {
        Some(s) => s,
        None => Single { bits: 0x3f00_0000 },
    }
}

proof fn lemma_top_members(scored: Seq<ScoredHit>, k: nat, i: int)
    requires
        0 <= i < top(scored, k).len(),
    ensures
        scored.contains(top(scored, k)[i]),
{
    let rank = |a: ScoredHit, b: ScoredHit| ScoredHit::ranks_before(a, b);
    law_sort_keeps_items(scored, rank);
    let sorted = stable_sorted(scored, rank);
    assert(sorted.contains(sorted[i]));
}

/// Whether no memory occurs twice.
pub open spec fn each_once(hits: Seq<ScoredHit>) -> bool {
    forall|i: int, j: int|
        0 <= i < j < hits.len() ==> (#[trigger] hits[i]).id != (#[trigger] hits[j]).id
}

/// Ranking keeps each memory once.
pub proof fn lemma_sorted_once(scored: Seq<ScoredHit>)
    requires
        each_once(scored),
    ensures
        each_once(
            stable_sorted(scored, |a: ScoredHit, b: ScoredHit| ScoredHit::ranks_before(a, b)),
        ),
{
    let rank = |a: ScoredHit, b: ScoredHit| ScoredHit::ranks_before(a, b);
    let sorted = stable_sorted(scored, rank);
    law_sort_keeps_items(scored, rank);
    assert(scored.no_duplicates());
    scored.lemma_multiset_has_no_duplicates();
    sorted.lemma_multiset_has_no_duplicates_conv();
    assert forall|i: int, j: int| 0 <= i < j < sorted.len() implies (#[trigger] sorted[i]).id != (
    #[trigger] sorted[j]).id by {
        assert(sorted.contains(sorted[i]));
        assert(sorted.contains(sorted[j]));
        let p = choose|p: int| 0 <= p < scored.len() && scored[p] == sorted[i];
        let q = choose|q: int| 0 <= q < scored.len() && scored[q] == sorted[j];
        if sorted[i].id == sorted[j].id {
            assert(p == q);
        }
    }
}

/// A search gives no memory twice.
pub proof fn law_search_distinct(
    a: Seq<MemoryId>,
    b: Seq<MemoryId>,
    candidates: Option<Seq<MemoryId>>,
    scores: Seq<Single>,
    k: nat,
)
    requires
        scores.len() == admitted(fused(a, b), candidates).len(),
    ensures
        each_once(top(with_scores(admitted(fused(a, b), candidates), scores), k)),
{
    let all = fused(a, b);
    let hits = admitted(all, candidates);
    let scored = with_scores(hits, scores);
    law_fusion_covers(a, b, MemoryId { value: 0 });
    match candidates {
        Some(ids) => {
            let keep = |h: Fused| ids.contains(h.id);
            lemma_filter_once(all, keep);
        },
        None => {},
    }
    assert forall|i: int, j: int| 0 <= i < j < scored.len() implies (#[trigger] scored[i]).id != (
    #[trigger] scored[j]).id by {
        assert(hits[i].id != hits[j].id);
    }
    lemma_sorted_once(scored);
}

/// What is kept of hits that each occur once occurs once.
proof fn lemma_filter_once(all: Seq<Fused>, keep: spec_fn(Fused) -> bool)
    requires
        forall|i: int, j: int|
            0 <= i < j < all.len() ==> (#[trigger] all[i]).id != (#[trigger] all[j]).id,
    ensures
        forall|i: int, j: int|
            0 <= i < j < all.filter(keep).len() ==> (#[trigger] all.filter(keep)[i]).id != (
            #[trigger] all.filter(keep)[j]).id,
    decreases all.len(),
{
    reveal(Seq::filter);
    if all.len() > 0 {
        let rest = all.drop_last();
        lemma_filter_once(rest, keep);
        let out = rest.filter(keep);
        assert forall|i: int, j: int|
            0 <= i < j < all.filter(keep).len() implies (#[trigger] all.filter(keep)[i]).id != (
        #[trigger] all.filter(keep)[j]).id by {
            if j == out.len() {
                rest.lemma_filter_contains_rev(keep, out[i]);
                assert(out.contains(out[i]));
                let p = choose|p: int| 0 <= p < rest.len() && rest[p] == out[i];
                assert(all[p].id != all[all.len() - 1].id);
            }
        }
    }
}

/// A search gives at most `k` memories. Each was hit by one of the two lists,
/// and passes the filters.
pub proof fn law_search_within(
    a: Seq<MemoryId>,
    b: Seq<MemoryId>,
    candidates: Option<Seq<MemoryId>>,
    scores: Seq<Single>,
    k: nat,
)
    requires
        scores.len() == admitted(fused(a, b), candidates).len(),
    ensures
        ({
            let res = top(with_scores(admitted(fused(a, b), candidates), scores), k);
            &&& res.len() <= k
            &&& forall|i: int|
                0 <= i < res.len() ==> {
                    let id = (#[trigger] res[i]).id;
                    &&& a.contains(id) || b.contains(id)
                    &&& candidates is Some ==> candidates->0.contains(id)
                }
        }),
{
    let hits = admitted(fused(a, b), candidates);
    let scored = with_scores(hits, scores);
    let res = top(scored, k);
    let rank = |x: ScoredHit, y: ScoredHit| ScoredHit::ranks_before(x, y);
    law_sort_keeps_items(scored, rank);
    assert forall|i: int| 0 <= i < res.len() implies {
        let id = (#[trigger] res[i]).id;
        &&& a.contains(id) || b.contains(id)
        &&& candidates is Some ==> candidates->0.contains(id)
    } by {
        lemma_top_members(scored, k, i);
        let j = choose|j: int| 0 <= j < scored.len() && scored[j] == res[i];
        let id = res[i].id;
        assert(hits[j].id == id);
        match candidates {
            Some(ids) => {
                let keep = |h: Fused| ids.contains(h.id);
                fused(a, b).lemma_filter_pred(keep, j);
                fused(a, b).lemma_filter_contains_rev(keep, hits[j]);
                assert(hits.contains(hits[j]));
                let m = choose|m: int| 0 <= m < fused(a, b).len() && fused(a, b)[m] == hits[j];
                assert(fused(a, b)[m].id == id);
            },
            None => {
                assert(fused(a, b)[j].id == id);
            },
        }
        law_fusion_covers(a, b, id);
    }
}

/// A scan gives at most `k` memories, no memory twice, and only such as the
/// filters admit. Where they admit no more than `k`, it gives them all.
pub proof fn law_scan_covers(candidates: Seq<MemoryId>, scores: Seq<Single>, k: nat)
    requires
        scores.len() == scan_hits(Some(candidates)).len(),
    ensures
        ({
            let res = top(with_scores(scan_hits(Some(candidates)), scores), k);
            &&& res.len() <= k
            &&& each_once(res)
            &&& forall|i: int|
                0 <= i < res.len() ==> candidates.contains((#[trigger] res[i]).id)
            &&& distinct(candidates).len() <= k ==> forall|id: MemoryId| #[trigger]
                candidates.contains(id) ==> found_in(res, id)
        }),
{
    law_distinct(candidates);
    let ids = distinct(candidates);
    let scored = with_scores(scan_hits(Some(candidates)), scores);
    let res = top(scored, k);
    let rank = |a: ScoredHit, b: ScoredHit| ScoredHit::ranks_before(a, b);
    let sorted = stable_sorted(scored, rank);
    law_sort_keeps_items(scored, rank);
    assert forall|i: int, j: int| 0 <= i < j < scored.len() implies (#[trigger] scored[i]).id != (
    #[trigger] scored[j]).id by {
        assert(ids[i] != ids[j]);
    }
    lemma_sorted_once(scored);
    assert forall|i: int| 0 <= i < res.len() implies candidates.contains(
        (#[trigger] res[i]).id,
    ) by {
        lemma_top_members(scored, k, i);
        let j = choose|j: int| 0 <= j < scored.len() && scored[j] == res[i];
        assert(ids.contains(ids[j]));
    }
    if ids.len() <= k {
        assert(res =~= sorted);
        assert forall|id: MemoryId| #[trigger] candidates.contains(id) implies found_in(
            res,
            id,
        ) by {
            assert(ids.contains(id));
            let j = choose|j: int| 0 <= j < ids.len() && ids[j] == id;
            assert(scored.contains(scored[j]));
            assert(sorted.contains(scored[j]));
            let m = choose|m: int| 0 <= m < sorted.len() && sorted[m] == scored[j];
            assert(res[m].id == id);
        }
    }
}

/// Whether a memory is among some scored memories.
pub open spec fn found_in(hits: Seq<ScoredHit>, id: MemoryId) -> bool {
    exists|j: int| 0 <= j < hits.len() && (#[trigger] hits[j]).id == id
}

/// Where every score is a number, a search gives the highest scores first, and
/// nothing that it leaves out scores higher than what it gives.
pub proof fn law_search_ranks(scored: Seq<ScoredHit>, k: nat)
    requires
        forall|i: int| 0 <= i < scored.len() ==> !(#[trigger] scored[i]).score.nan(),
    ensures
        ({
            let sorted = stable_sorted(
                scored,
                |a: ScoredHit, b: ScoredHit| ScoredHit::ranks_before(a, b),
            );
            &&& sorted.to_multiset() == scored.to_multiset()
            &&& top(scored, k) == sorted.take(top(scored, k).len() as int)
            &&& forall|i: int, j: int|
                0 <= i < j < sorted.len() ==> (#[trigger] sorted[i]).score.key() >= (
                #[trigger] sorted[j]).score.key()
        }),
{
    let rank = |a: ScoredHit, b: ScoredHit| ScoredHit::ranks_before(a, b);
    let sorted = stable_sorted(scored, rank);
    law_sort_keeps_items(scored, rank);
    assert forall|x: ScoredHit| scored.contains(x) implies !x.score.nan() by {
        let j = choose|j: int| 0 <= j < scored.len() && scored[j] == x;
        assert(!scored[j].score.nan());
    }
    law_sort_orders(scored, rank);
    assert forall|i: int, j: int| 0 <= i < j < sorted.len() implies (
    #[trigger] sorted[i]).score.key() >= (#[trigger] sorted[j]).score.key() by {
        assert(sorted.contains(sorted[i]));
        assert(sorted.contains(sorted[j]));
        assert(!rank(sorted[j], sorted[i]));
    }
}

// ---------------------------------------------------------------------------
// Traces
// ---------------------------------------------------------------------------
/// One final ranked hit of a retrieval trace.
#[derive(Clone, Copy, Debug, PartialEq, Eq, Structural)]
pub struct TraceHit {
    /// Place in the result, counted from 1.
    pub rank: i64,
    pub memory_id: MemoryId,
    pub score: Single,
    /// Place among the nearest memories, counted from 1.
    pub vector_rank: Option<i64>,
    /// Place among the text matches, counted from 1.
    pub bm25_rank: Option<i64>,
}

/// The place of an identity in a ranked list, counted from 1; the last place
/// where it occurs more than once.
pub open spec fn place_in(hits: Seq<MemoryId>, id: MemoryId) -> Option<i64>
    decreases hits.len(),
{
    if hits.len() == 0 {
        None
    } else if hits.last() == id {
        Some(hits.len() as i64)
    } else {
        place_in(hits.drop_last(), id)
    }
}

fn find_place(hits: &Vec<MemoryId>, id: MemoryId) -> (res: Option<i64>)
    requires
        hits@.len() <= i64::MAX,
    ensures
        res == place_in(hits@, id),
{
    let mut n: usize = hits.len();
    proof {
        assert(hits@.take(n as int) =~= hits@);
    }
    while n > 0
        invariant
            n <= hits.len(),
            hits@.len() <= i64::MAX,
            place_in(hits@, id) == place_in(hits@.take(n as int), id),
        decreases n,
    {
        proof {
            assert(hits@.take(n as int).drop_last() =~= hits@.take(n - 1));
        }
        if hits[n - 1] == id {
            return Some(n as i64);
        }
        n = n - 1;
    }
    None
}

/// The traced form of a result.
pub open spec fn traced(
    scored: Seq<ScoredHit>,
    vector_hits: Seq<MemoryId>,
    text_hits: Seq<MemoryId>,
) -> Seq<TraceHit> {
    Seq::new(
        scored.len(),
        |i: int|
            TraceHit {
                rank: (i + 1) as i64,
                memory_id: scored[i].id,
                score: scored[i].score,
                vector_rank: place_in(vector_hits, scored[i].id),
                bm25_rank: place_in(text_hits, scored[i].id),
            },
    )
}

/// What a trace records of each hit: its place in the result and in the two
/// lists that were fused.
pub fn trace_hits(
    scored: &Vec<ScoredHit>,
    vector_hits: &Vec<MemoryId>,
    text_hits: &Vec<MemoryId>,
) -> (res: Vec<TraceHit>)
    requires
        scored@.len() <= i64::MAX,
        vector_hits@.len() <= i64::MAX,
        text_hits@.len() <= i64::MAX,
    ensures
        res@ == traced(scored@, vector_hits@, text_hits@),
{
    let ghost all = traced(scored@, vector_hits@, text_hits@);
    let mut out: Vec<TraceHit> = Vec::new();
    for i in 0..scored.len()
        invariant
            scored@.len() <= i64::MAX,
            vector_hits@.len() <= i64::MAX,
            text_hits@.len() <= i64::MAX,
            all == traced(scored@, vector_hits@, text_hits@),
            out@ == all.take(i as int),
    {
        let hit = scored[i];
        out.push(
            TraceHit {
                rank: (i + 1) as i64,
                memory_id: hit.id,
                score: hit.score,
                vector_rank: find_place(vector_hits, hit.id),
                bm25_rank: find_place(text_hits, hit.id),
            },
        );
        assert(out@ =~= all.take(i + 1));
    }
    proof {
        assert(all.take(all.len() as int) =~= all);
    }
    out
}

/// The columns of a trace, without its identity, its time and the tuning.
#[derive(Debug)]
pub struct TraceHeader {
    pub query_text: Option<String>,
    pub query_embedding_dim: i64,
    pub k: i64,
    pub fetch_k: i64,
    pub tags_json: String,
    pub tags_or: i64,
    pub time_start: Option<i64>,
    pub time_end: Option<i64>,
    pub candidate_count: i64,
    pub result_count: i64,
}

/// The tags of a request, none where it has no tag filter.
pub open spec fn tags_or_none(tags: Option<Vec<String>>) -> Seq<Seq<char>> {
    match tags {
        Some(t) => views(t@),
        None => Seq::empty(),
    }
}

/// The text of a list of tags.
pub fn tags_json(tags: &Option<Vec<String>>) -> (res: Result<String, MenteError>)
    ensures
        res is Ok,
        res->Ok_0@ == json_list_text(tags_or_none(*tags)),
        json_list(res->Ok_0@) == Some(tags_or_none(*tags)),
{
    let list: Vec<String> = match tags {
        Some(t) => copy_texts(t),
        None => Vec::new(),
    };
    proof {
        assert(views(list@) =~= tags_or_none(*tags));
    }
    match list_to_json(&list) {
        Ok(text) => Ok(text),
        Err(message) => Err(MenteError::Storage(message)),
    }
}

/// A list of tags from its text, empty where the text is no such list.
pub fn parse_tags_json(value: &str) -> (res: Vec<String>)
    ensures
        views(res@) == match json_list(value@) {
            Some(items) => items,
            None => Seq::empty(),
        },
{
    match list_from_json(value) {
        Some(items) => items,
        None => {
            let none: Vec<String> = Vec::new();
            assert(views(none@) =~= Seq::empty());
            none
        },
    }
}

/// Whether every count of a trace fits its column.
pub open spec fn trace_counts_fit(
    request: SearchRequest,
    fetch_k: usize,
    candidate_count: usize,
    result_count: usize,
) -> bool {
    &&& request.embedding_len <= i64::MAX
    &&& request.k <= i64::MAX
    &&& fetch_k <= i64::MAX
    &&& candidate_count <= i64::MAX
    &&& result_count <= i64::MAX
}

/// Whether a header is that of a search.
pub open spec fn is_trace_header(
    h: TraceHeader,
    request: SearchRequest,
    fetch_k: usize,
    candidate_count: usize,
    result_count: usize,
) -> bool {
    &&& opt_view(h.query_text) == opt_view(request.query_text)
    &&& h.query_embedding_dim == request.embedding_len
    &&& h.k == request.k
    &&& h.fetch_k == fetch_k
    &&& h.tags_json@ == json_list_text(tags_or_none(request.tags))
    &&& json_list(h.tags_json@) == Some(tags_or_none(request.tags))
    &&& h.tags_or == if request.tags_or {
        1int
    } else {
        0int
    }
    &&& h.time_start == match request.time_range {
        Some((start, _)) => opt_signed(Some(start)),
        None => None,
    }
    &&& h.time_end == match request.time_range {
        Some((_, end)) => opt_signed(Some(end)),
        None => None,
    }
    &&& h.candidate_count == candidate_count
    &&& h.result_count == result_count
}

/// The columns of a trace of a search; an error where a count does not fit.
pub fn trace_header(
    request: &SearchRequest,
    fetch_k: usize,
    candidate_count: usize,
    result_count: usize,
) -> (res: Result<TraceHeader, MenteError>)
    ensures
        res is Ok <==> trace_counts_fit(*request, fetch_k, candidate_count, result_count),
        match res {
            Ok(h) => is_trace_header(h, *request, fetch_k, candidate_count, result_count),
            Err(e) => e@ == ErrorView::Storage(
                "out of range integral type conversion attempted"@,
            ),
        },
{
    let tags = tags_json(&request.tags)?;
    let dim = usize_to_i64(request.embedding_len)?;
    let k = usize_to_i64(request.k)?;
    let fetched = usize_to_i64(fetch_k)?;
    let candidates = usize_to_i64(candidate_count)?;
    let results = usize_to_i64(result_count)?;
    let (start, end): (Option<Timestamp>, Option<Timestamp>) = match request.time_range {
        Some((a, b)) => (Some(a), Some(b)),
        None => (None, None),
    };
    Ok(
        TraceHeader {
            query_text: copy_opt(&request.query_text),
            query_embedding_dim: dim,
            k,
            fetch_k: fetched,
            tags_json: tags,
            tags_or: if request.tags_or {
                1
            } else {
                0
            },
            time_start: opt_time_to_column(start),
            time_end: opt_time_to_column(end),
            candidate_count: candidates,
            result_count: results,
        },
    )
}

/// The traces beyond the retention limit, of a list with the newest first.
pub fn stale_traces(newest_first: &Vec<String>, keep: usize) -> (res: Vec<String>)
    ensures
        views(res@) == if keep < newest_first@.len() {
            views(newest_first@).skip(keep as int)
        } else {
            Seq::empty()
        },
{
    let mut out: Vec<String> = Vec::new();
    let ghost all = views(newest_first@);
    let start: usize = if keep < newest_first.len() {
        keep
    } else {
        newest_first.len()
    };
    for i in start..newest_first.len()
        invariant
            start <= newest_first.len(),
            all == views(newest_first@),
            views(out@) == all.subrange(start as int, i as int),
    {
        let ghost before = out@;
        let item = copy_text(newest_first[i].as_str());
        proof {
            crate::text::lemma_views_push(before, item);
        }
        out.push(item);
        assert(views(out@) =~= all.subrange(start as int, i + 1));
    }
    proof {
        assert(all.subrange(start as int, all.len() as int) =~= all.skip(start as int));
        if keep >= newest_first@.len() {
            assert(views(out@) =~= Seq::empty());
        }
    }
    out
}

} // verus!
