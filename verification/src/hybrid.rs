//! A hybrid search from its request to its outcome.
//!
//! A search alternates between reading and deciding. Each decision turns one
//! state into the next; the state says what is read before it. A scan is a
//! search without a query: it goes by its filters alone.
use crate::codec::usize_to_i64;
use crate::float::Single;
use crate::memory::{ErrorView, MemoryId, MenteError, Timestamp};
use crate::order::views_of;
use crate::query::distinct;
use crate::recall::in_range;
use crate::search::{
    admitted, begin_search, candidate_set, candidates_of, each_once, fetch_count, fetch_limit,
    finish_search, found_in, fused, fused_candidates, is_trace_header, law_filters_intersect,
    law_scan_covers, law_search_distinct, law_search_within, opt_ids, scan_hits,
    scanned_candidates, top, trace_counts_fit, trace_header, trace_hits, traced, with_scores,
    FusedHit, ScoredHit, SearchRequest, TraceHeader, TraceHit,
};
use crate::tables::{carries, Tables};
use vstd::prelude::*;

verus! {

/// A search that can find something. The memories that each filter of the
/// request admits are read next.
#[derive(Debug)]
pub struct HybridSearch {
    pub request: SearchRequest,
    /// How many hits are fetched from each index.
    pub fetch_k: usize,
}

/// A search with the memories that its filters admit. The hits are read next.
#[derive(Debug)]
pub struct FilteredSearch {
    pub search: HybridSearch,
    /// What the filters admit, `None` without filters.
    pub candidates: Option<Vec<MemoryId>>,
}

/// A search with its hits. Their scores are worked out next.
#[derive(Debug)]
pub struct FusedSearch {
    pub search: HybridSearch,
    /// The nearest memories, best first.
    pub vector_hits: Vec<MemoryId>,
    /// The matches of the text, best first.
    pub text_hits: Vec<MemoryId>,
    /// The hits that are scored.
    pub hits: Vec<FusedHit>,
    /// How many memories were hit.
    pub candidate_count: usize,
}

/// What came out of a search.
#[derive(Debug)]
pub struct SearchOutcome {
    pub search: HybridSearch,
    pub vector_hits: Vec<MemoryId>,
    pub text_hits: Vec<MemoryId>,
    pub candidate_count: usize,
    /// The memories found, best first.
    pub results: Vec<ScoredHit>,
}

impl HybridSearch {
    /// Begins a search, unless it cannot find anything: where nothing is wanted
    /// or the query has no embedding.
    pub fn begin(request: SearchRequest, fetch_multiplier: usize) -> (res: Option<HybridSearch>)
        ensures
            res is Some <==> request.k != 0 && request.embedding_len != 0,
            res is Some ==> res->0.request == request && res->0.fetch_k == fetch_count(
                request.k,
                fetch_multiplier,
            ),
    {
        if !begin_search(&request) {
            return None;
        }
        let fetch_k = fetch_limit(request.k, fetch_multiplier);
        Some(HybridSearch { request, fetch_k })
    }

    /// Begins a scan, unless nothing is wanted.
    pub fn scan(request: SearchRequest, fetch_multiplier: usize) -> (res: Option<HybridSearch>)
        ensures
            res is Some <==> request.k != 0,
            res is Some ==> res->0.request == request && res->0.fetch_k == fetch_count(
                request.k,
                fetch_multiplier,
            ),
    {
        if request.k == 0 {
            return None;
        }
        let fetch_k = fetch_limit(request.k, fetch_multiplier);
        Some(HybridSearch { request, fetch_k })
    }

    /// Takes what each filter admits, `None` for one that was not asked for.
    pub fn filtered(
        self,
        by_tags: Option<Vec<MemoryId>>,
        by_time: Option<Vec<MemoryId>>,
    ) -> (res: FilteredSearch)
        ensures
            res.search == self,
            opt_ids(res.candidates) == candidates_of(opt_ids(by_tags), opt_ids(by_time)),
    {
        FilteredSearch { search: self, candidates: candidate_set(by_tags, by_time) }
    }
}

impl FilteredSearch {
    /// Whether hits are read: not where the filters admit no memory.
    pub open spec fn wants_hits(self) -> bool {
        !(self.candidates is Some && self.candidates->0@.len() == 0)
    }

    /// Whether the text is matched: where hits are read and there is a text.
    pub open spec fn wants_text(self) -> bool {
        &&& self.wants_hits()
        &&& self.search.request.query_text is Some
        &&& self.search.request.query_text->0@.len() > 0
    }

    /// Whether hits are read.
    pub fn reads_hits(&self) -> (res: bool)
        ensures
            res == self.wants_hits(),
    {
        match &self.candidates {
            Some(ids) => ids.len() > 0,
            None => true,
        }
    }

    /// Whether the text is matched.
    pub fn reads_text(&self) -> (res: bool)
        ensures
            res == self.wants_text(),
    {
        match &self.search.request.query_text {
            Some(t) => self.reads_hits() && !t.as_str().is_empty(),
            None => false,
        }
    }

    /// The nearest memories that count, of those that were read.
    pub open spec fn near(self, vector_hits: Seq<MemoryId>) -> Seq<MemoryId> {
        if self.wants_hits() {
            vector_hits
        } else {
            Seq::empty()
        }
    }

    /// The matches of the text that count, of those that were read.
    pub open spec fn matching(self, text_hits: Seq<MemoryId>) -> Seq<MemoryId> {
        if self.wants_text() {
            text_hits
        } else {
            Seq::empty()
        }
    }

    /// Takes the hits. What was not to be read does not count.
    pub fn found(self, vector_hits: Vec<MemoryId>, text_hits: Vec<MemoryId>) -> (res: FusedSearch)
        ensures
            res.search == self.search,
            res.vector_hits@ == self.near(vector_hits@),
            res.text_hits@ == self.matching(text_hits@),
            views_of(res.hits@) == admitted(
                fused(res.vector_hits@, res.text_hits@),
                opt_ids(self.candidates),
            ),
            res.candidate_count == fused(res.vector_hits@, res.text_hits@).len(),
    {
        let near = if self.reads_hits() {
            vector_hits
        } else {
            Vec::new()
        };
        let matching = if self.reads_text() {
            text_hits
        } else {
            Vec::new()
        };
        let (hits, candidate_count) = fused_candidates(&near, &matching, &self.candidates);
        FusedSearch {
            search: self.search,
            vector_hits: near,
            text_hits: matching,
            hits,
            candidate_count,
        }
    }
}

impl FilteredSearch {
    /// Takes every memory that the filters admit. No index has a say in a scan.
    pub fn scanned(self) -> (res: FusedSearch)
        ensures
            res.search == self.search,
            res.vector_hits@ == Seq::<MemoryId>::empty(),
            res.text_hits@ == Seq::<MemoryId>::empty(),
            views_of(res.hits@) == scan_hits(opt_ids(self.candidates)),
            res.candidate_count == scan_hits(opt_ids(self.candidates)).len(),
    {
        let hits = scanned_candidates(&self.candidates);
        let candidate_count: usize = hits.len();
        proof {
            assert(views_of(hits@).len() == candidate_count);
        }
        FusedSearch {
            search: self.search,
            vector_hits: Vec::new(),
            text_hits: Vec::new(),
            hits,
            candidate_count,
        }
    }
}

impl FusedSearch {
    /// Takes the scores of the hits, in their order.
    pub fn scored(self, scores: &Vec<Single>) -> (res: SearchOutcome)
        requires
            scores@.len() == self.hits@.len(),
        ensures
            res.search == self.search,
            res.vector_hits@ == self.vector_hits@,
            res.text_hits@ == self.text_hits@,
            res.candidate_count == self.candidate_count,
            res.results@ == top(
                with_scores(views_of(self.hits@), scores@),
                self.search.request.k as nat,
            ),
    {
        let results = finish_search(&self.hits, scores, self.search.request.k);
        SearchOutcome {
            search: self.search,
            vector_hits: self.vector_hits,
            text_hits: self.text_hits,
            candidate_count: self.candidate_count,
            results,
        }
    }
}

impl SearchOutcome {
    /// Whether every count of the trace of the search fits its column.
    pub open spec fn trace_fits(self) -> bool {
        &&& trace_counts_fit(
            self.search.request,
            self.search.fetch_k,
            self.candidate_count,
            self.results@.len() as usize,
        )
        &&& self.vector_hits@.len() <= i64::MAX
        &&& self.text_hits@.len() <= i64::MAX
    }

    /// The trace of the search: its header and a row for each result. An error
    /// where a count does not fit its column.
    pub fn trace(&self) -> (res: Result<(TraceHeader, Vec<TraceHit>), MenteError>)
        ensures
            match res {
                Ok((header, hits)) => {
                    &&& self.trace_fits()
                    &&& is_trace_header(
                        header,
                        self.search.request,
                        self.search.fetch_k,
                        self.candidate_count,
                        self.results@.len() as usize,
                    )
                    &&& hits@ == traced(self.results@, self.vector_hits@, self.text_hits@)
                },
                Err(e) => !self.trace_fits() && e@ == ErrorView::Storage(
                    "out of range integral type conversion attempted"@,
                ),
            },
    {
        usize_to_i64(self.vector_hits.len())?;
        usize_to_i64(self.text_hits.len())?;
        let header = trace_header(
            &self.search.request,
            self.search.fetch_k,
            self.candidate_count,
            self.results.len(),
        )?;
        Ok((header, trace_hits(&self.results, &self.vector_hits, &self.text_hits)))
    }

    /// Ends the search: its results, and its trace where searches are traced
    /// and the trace fits its columns. The results do not depend on that.
    pub fn conclude(self, tracing: bool) -> (res: (
        Vec<ScoredHit>,
        Option<(TraceHeader, Vec<TraceHit>)>,
    ))
        ensures
            res.0@ == self.results@,
            res.1 is Some <==> tracing && self.trace_fits(),
            res.1 matches Some((header, hits)) ==> {
                &&& is_trace_header(
                    header,
                    self.search.request,
                    self.search.fetch_k,
                    self.candidate_count,
                    self.results@.len() as usize,
                )
                &&& hits@ == traced(self.results@, self.vector_hits@, self.text_hits@)
            },
    {
        let trace = if tracing {
            match self.trace() {
                Ok(t) => Some(t),
                Err(_) => None,
            }
        } else {
            None
        };
        (self.results, trace)
    }
}

/// What a search gives, from its request, what its filters admit, its hits and
/// their scores.
pub open spec fn search_results(
    f: FilteredSearch,
    vector_hits: Seq<MemoryId>,
    text_hits: Seq<MemoryId>,
    scores: Seq<Single>,
) -> Seq<ScoredHit> {
    top(
        with_scores(
            admitted(
                fused(f.near(vector_hits), f.matching(text_hits)),
                opt_ids(f.candidates),
            ),
            scores,
        ),
        f.search.request.k as nat,
    )
}

/// A search gives at most as many memories as are wanted, none of them twice,
/// and each of them was hit and passes every filter that was asked for.
pub proof fn law_results_pass_filters(
    f: FilteredSearch,
    by_tags: Option<Seq<MemoryId>>,
    by_time: Option<Seq<MemoryId>>,
    vector_hits: Seq<MemoryId>,
    text_hits: Seq<MemoryId>,
    scores: Seq<Single>,
    i: int,
)
    requires
        opt_ids(f.candidates) == candidates_of(by_tags, by_time),
        scores.len() == admitted(
            fused(f.near(vector_hits), f.matching(text_hits)),
            opt_ids(f.candidates),
        ).len(),
        0 <= i < search_results(f, vector_hits, text_hits, scores).len(),
    ensures
        ({
            let res = search_results(f, vector_hits, text_hits, scores);
            &&& res.len() <= f.search.request.k
            &&& vector_hits.contains(res[i].id) || text_hits.contains(res[i].id)
            &&& by_tags is Some ==> by_tags->0.contains(res[i].id)
            &&& by_time is Some ==> by_time->0.contains(res[i].id)
            &&& each_once(res)
        }),
{
    let res = search_results(f, vector_hits, text_hits, scores);
    law_search_distinct(
        f.near(vector_hits),
        f.matching(text_hits),
        opt_ids(f.candidates),
        scores,
        f.search.request.k as nat,
    );
    law_search_within(
        f.near(vector_hits),
        f.matching(text_hits),
        opt_ids(f.candidates),
        scores,
        f.search.request.k as nat,
    );
    let id = res[i].id;
    if by_tags is Some && by_time is Some {
        law_filters_intersect(by_tags->0, by_time->0, id);
    }
}

/// A search whose filters admit no memory gives none, whatever was hit.
pub proof fn law_empty_filter_finds_nothing(
    f: FilteredSearch,
    vector_hits: Seq<MemoryId>,
    text_hits: Seq<MemoryId>,
    scores: Seq<Single>,
)
    requires
        f.candidates is Some,
        f.candidates->0@.len() == 0,
        scores.len() == admitted(
            fused(f.near(vector_hits), f.matching(text_hits)),
            opt_ids(f.candidates),
        ).len(),
    ensures
        search_results(f, vector_hits, text_hits, scores).len() == 0,
{
    let res = search_results(f, vector_hits, text_hits, scores);
    law_search_within(
        f.near(vector_hits),
        f.matching(text_hits),
        opt_ids(f.candidates),
        scores,
        f.search.request.k as nat,
    );
    if res.len() > 0 {
        assert(opt_ids(f.candidates)->0.contains(res[0].id));
    }
}

/// What a scan gives, from what its filters admit and the scores of that.
pub open spec fn scan_results(f: FilteredSearch, scores: Seq<Single>) -> Seq<ScoredHit> {
    top(with_scores(scan_hits(opt_ids(f.candidates)), scores), f.search.request.k as nat)
}

/// Whether a memory passes every filter that was asked for.
pub open spec fn passes_filters(
    by_tags: Option<Seq<MemoryId>>,
    by_time: Option<Seq<MemoryId>>,
    id: MemoryId,
) -> bool {
    &&& by_tags is Some ==> by_tags->0.contains(id)
    &&& by_time is Some ==> by_time->0.contains(id)
}

/// A scan gives at most as many memories as are wanted, none of them twice and
/// each of them passing every filter that was asked for. Where no more pass than
/// are wanted, every memory that passes is given.
pub proof fn law_scan_gives_admitted(
    f: FilteredSearch,
    by_tags: Option<Seq<MemoryId>>,
    by_time: Option<Seq<MemoryId>>,
    scores: Seq<Single>,
)
    requires
        opt_ids(f.candidates) == candidates_of(by_tags, by_time),
        by_tags is Some || by_time is Some,
        scores.len() == scan_hits(opt_ids(f.candidates)).len(),
    ensures
        ({
            let res = scan_results(f, scores);
            &&& res.len() <= f.search.request.k
            &&& each_once(res)
            &&& forall|i: int|
                0 <= i < res.len() ==> passes_filters(by_tags, by_time, (#[trigger] res[i]).id)
            &&& distinct(f.candidates->0@).len() <= f.search.request.k ==> forall|id: MemoryId|
                passes_filters(by_tags, by_time, id) ==> #[trigger] found_in(res, id)
        }),
{
    let res = scan_results(f, scores);
    let ids = f.candidates->0@;
    law_scan_covers(ids, scores, f.search.request.k as nat);
    assert forall|id: MemoryId| #[trigger]
        ids.contains(id) <==> passes_filters(by_tags, by_time, id) by {
        if by_tags is Some && by_time is Some {
            law_filters_intersect(by_tags->0, by_time->0, id);
        }
    }
    assert forall|i: int| 0 <= i < res.len() implies passes_filters(
        by_tags,
        by_time,
        (#[trigger] res[i]).id,
    ) by {
        assert(ids.contains(res[i].id));
    }
    if distinct(ids).len() <= f.search.request.k {
        assert forall|id: MemoryId| passes_filters(by_tags, by_time, id) implies #[trigger] found_in(
            res,
            id,
        ) by {
            assert(ids.contains(id));
        }
    }
}

/// Whether a stored memory carries all of some tags.
pub open spec fn carries_all(db: Tables, id: MemoryId, tags: Seq<Seq<char>>) -> bool {
    db.memories.contains_key(id) && forall|i: int|
        0 <= i < tags.len() ==> carries(db, id, #[trigger] tags[i])
}

/// A scan for tags whose filter admits the stored memories that carry them gives
/// exactly those, where no more of them are stored than are wanted.
pub proof fn law_tag_scan(
    db: Tables,
    tags: Seq<Seq<char>>,
    f: FilteredSearch,
    by_tags: Seq<MemoryId>,
    scores: Seq<Single>,
)
    requires
        forall|id: MemoryId| #[trigger] by_tags.contains(id) <==> carries_all(db, id, tags),
        opt_ids(f.candidates) == candidates_of(Some(by_tags), None),
        scores.len() == scan_hits(opt_ids(f.candidates)).len(),
        distinct(by_tags).len() <= f.search.request.k,
    ensures
        each_once(scan_results(f, scores)),
        forall|id: MemoryId| #[trigger]
            found_in(scan_results(f, scores), id) <==> carries_all(db, id, tags),
{
    let res = scan_results(f, scores);
    law_scan_covers(by_tags, scores, f.search.request.k as nat);
    assert forall|id: MemoryId| #[trigger] found_in(res, id) <==> carries_all(db, id, tags) by {
        assert(by_tags.contains(id) <==> carries_all(db, id, tags));
        if found_in(res, id) {
            let j = choose|j: int| 0 <= j < res.len() && (#[trigger] res[j]).id == id;
            assert(by_tags.contains(res[j].id));
        }
    }
}

/// A scan of a time range whose filter admits the stored memories that were
/// created in it gives exactly those, where no more of them are stored than are
/// wanted.
pub proof fn law_time_scan(
    db: Tables,
    range: (Timestamp, Timestamp),
    f: FilteredSearch,
    by_time: Seq<MemoryId>,
    scores: Seq<Single>,
)
    requires
        forall|id: MemoryId| #[trigger]
            by_time.contains(id) <==> db.memories.contains_key(id) && in_range(
                db.memories[id].created_at,
                Some(range),
            ),
        opt_ids(f.candidates) == candidates_of(None, Some(by_time)),
        scores.len() == scan_hits(opt_ids(f.candidates)).len(),
        distinct(by_time).len() <= f.search.request.k,
    ensures
        each_once(scan_results(f, scores)),
        forall|id: MemoryId| #[trigger]
            found_in(scan_results(f, scores), id) <==> db.memories.contains_key(id) && in_range(
                db.memories[id].created_at,
                Some(range),
            ),
{
    let res = scan_results(f, scores);
    law_scan_covers(by_time, scores, f.search.request.k as nat);
    assert forall|id: MemoryId| #[trigger]
        found_in(res, id) <==> db.memories.contains_key(id) && in_range(
            db.memories[id].created_at,
            Some(range),
        ) by {
        assert(by_time.contains(id) <==> db.memories.contains_key(id) && in_range(
            db.memories[id].created_at,
            Some(range),
        ));
        if found_in(res, id) {
            let j = choose|j: int| 0 <= j < res.len() && (#[trigger] res[j]).id == id;
            assert(by_time.contains(res[j].id));
        }
    }
}

} // verus!
