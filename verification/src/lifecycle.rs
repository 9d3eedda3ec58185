//! What becomes of memories: provisioning of the index, inference on write,
//! consolidation, archival and the execution of query plans.
use crate::codec::dimension_conflict;
use crate::float::Single;
use crate::memory::{
    plain_edge, EdgeType, EdgeView, ErrorView, MemoryEdge, MemoryId, MemoryNode, MemoryView,
    MenteError, Timestamp,
};
use crate::order::views_of;
use crate::recall::{by_score, rank_recall};
use crate::search::{ScoredHit, SearchRequest};
use crate::text::{copy_text, copy_texts, views};
use vstd::prelude::*;

verus! {

// ---------------------------------------------------------------------------
// Provisioning
// ---------------------------------------------------------------------------
/// The dimension of an index that a write has to create first: that of the
/// first embedding, where there is no index yet.
pub open spec fn provision_for(current: usize, lens: Seq<nat>) -> Option<nat>
    decreases lens.len(),
{
    if current != 0 || lens.len() == 0 {
        None
    } else if lens[0] != 0 {
        Some(lens[0])
    } else {
        provision_for(current, lens.drop_first())
    }
}

/// The lengths of the embeddings of some memories.
pub open spec fn embedding_lens(nodes: Seq<MemoryNode>) -> Seq<nat> {
    nodes.map_values(|n: MemoryNode| n.embedding@.len())
}

/// The index that storing one memory has to create first.
pub fn provision_one(current: usize, node: &MemoryNode) -> (res: Option<usize>)
    ensures
        match res {
            Some(dim) => current == 0 && node.embedding@.len() != 0 && dim
                == node.embedding@.len(),
            None => current != 0 || node.embedding@.len() == 0,
        },
{
    if node.embedding.len() != 0 && current == 0 {
        Some(node.embedding.len())
    } else {
        None
    }
}

/// The index that storing a batch has to create first.
pub fn provision_batch(current: usize, nodes: &Vec<MemoryNode>) -> (res: Option<usize>)
    ensures
        match res {
            Some(dim) => provision_for(current, embedding_lens(nodes@)) == Some(dim as nat),
            None => provision_for(current, embedding_lens(nodes@)) is None,
        },
{
    let ghost lens = embedding_lens(nodes@);
    if current != 0 {
        return None;
    }
    proof {
        assert(lens.skip(0) =~= lens);
    }
    for i in 0..nodes.len()
        invariant
            current == 0,
            lens == embedding_lens(nodes@),
            provision_for(current, lens) == provision_for(current, lens.skip(i as int)),
    {
        proof {
            assert(lens.skip(i as int)[0] == nodes@[i as int].embedding@.len());
            assert(lens.skip(i as int).drop_first() =~= lens.skip(i + 1));
        }
        if nodes[i].embedding.len() != 0 {
            return Some(nodes[i].embedding.len());
        }
    }
    None
}

/// After its index is provisioned, storing one memory never fails on the
/// dimension where there was no index before.
pub proof fn law_first_embedding_fits(current: usize, len: usize)
    requires
        current == 0,
    ensures
        !dimension_conflict(
            if len != 0 {
                len
            } else {
                current
            },
            len as nat,
        ),
{
}

/// The dimension at which the vector index is confirmed: the configured one, or
/// that of the store where none is configured.
pub fn rebuild_dimension(configured: usize, stored: usize) -> (res: usize)
    ensures
        res == if configured > 0 {
            configured
        } else {
            stored
        },
{
    if configured > 0 {
        configured
    } else {
        stored
    }
}

// ---------------------------------------------------------------------------
// Inference on write
// ---------------------------------------------------------------------------
/// What inference on a new memory asks for.
#[derive(Debug)]
pub enum InferredAction {
    CreateEdge { source: MemoryId, target: MemoryId, edge_type: EdgeType, weight: Single },
    InvalidateMemory { memory: MemoryId, superseded_by: MemoryId, valid_until: Timestamp },
    MarkObsolete { memory: MemoryId, superseded_by: MemoryId },
    FlagContradiction { existing: MemoryId, new: MemoryId, reason: String },
    UpdateConfidence { memory: MemoryId, new_confidence: Single },
    PropagateBeliefChange { root: MemoryId, delta: Single },
    UpdateContent { memory: MemoryId, new_content: String, reason: String },
}

/// One thing that is done to the store. `Invalidate` and `Relate` must succeed
/// before the next one is done; the others pass over a memory that is missing.
#[derive(Debug)]
pub enum Effect {
    /// End the validity of a memory.
    Invalidate { memory: MemoryId, at: Timestamp },
    /// Add an edge.
    Relate(MemoryEdge),
    /// Replace the confidence of a memory.
    SetConfidence { memory: MemoryId, confidence: Single },
    /// Spread a change of confidence from a memory over the graph.
    Spread { root: MemoryId, delta: Single },
    /// Replace the content of a memory.
    SetContent { memory: MemoryId, content: String },
}

/// The mathematical form of an effect.
pub enum EffectView {
    Invalidate { memory: MemoryId, at: Timestamp },
    Relate(EdgeView),
    SetConfidence { memory: MemoryId, confidence: Single },
    Spread { root: MemoryId, delta: Single },
    SetContent { memory: MemoryId, content: Seq<char> },
}

impl View for Effect {
    type V = EffectView;

    open spec fn view(&self) -> EffectView {
        match *self {
            Effect::Invalidate { memory, at } => EffectView::Invalidate { memory, at },
            Effect::Relate(e) => EffectView::Relate(e@),
            Effect::SetConfidence { memory, confidence } => EffectView::SetConfidence {
                memory,
                confidence,
            },
            Effect::Spread { root, delta } => EffectView::Spread { root, delta },
            Effect::SetContent { memory, content } => EffectView::SetContent {
                memory,
                content: content@,
            },
        }
    }
}

/// The weight of an edge that is certain.
pub open spec fn full_weight() -> Single {
    Single { bits: 0x3f80_0000 }
}

/// The edge by which one memory supersedes another one.
pub open spec fn supersedes(by: MemoryId, memory: MemoryId, now: Timestamp) -> EdgeView {
    plain_edge(by, memory, EdgeType::Supersedes, full_weight(), now, None)
}

/// What an inferred action does to the store.
pub open spec fn effects_of(action: InferredAction, now: Timestamp) -> Seq<EffectView> {
    match action {
        InferredAction::CreateEdge { source, target, edge_type, weight } => seq![
            EffectView::Relate(plain_edge(source, target, edge_type, weight, now, None)),
        ],
        InferredAction::InvalidateMemory { memory, superseded_by, valid_until } => seq![
            EffectView::Invalidate { memory, at: valid_until },
            EffectView::Relate(supersedes(superseded_by, memory, now)),
        ],
        InferredAction::MarkObsolete { memory, superseded_by } => seq![
            EffectView::Invalidate { memory, at: now },
            EffectView::Relate(supersedes(superseded_by, memory, now)),
        ],
        InferredAction::FlagContradiction { existing, new, reason } => seq![
            EffectView::Relate(
                plain_edge(
                    new,
                    existing,
                    EdgeType::Contradicts,
                    full_weight(),
                    now,
                    Some(reason@),
                ),
            ),
        ],
        InferredAction::UpdateConfidence { memory, new_confidence } => seq![
            EffectView::SetConfidence { memory, confidence: new_confidence },
        ],
        InferredAction::PropagateBeliefChange { root, delta } => seq![
            EffectView::Spread { root, delta },
        ],
        InferredAction::UpdateContent { memory, new_content, reason } => seq![
            EffectView::SetContent { memory, content: new_content@ },
        ],
    }
}

fn one_effect(e: Effect) -> (res: Vec<Effect>)
    ensures
        views_of(res@) == seq![e@],
{
    let mut out: Vec<Effect> = Vec::new();
    out.push(e);
    assert(views_of(out@) =~= seq![e@]);
    out
}

fn invalidate_and_supersede(
    memory: MemoryId,
    superseded_by: MemoryId,
    at: Timestamp,
    now: Timestamp,
) -> (res: Vec<Effect>)
    ensures
        views_of(res@) == seq![
            EffectView::Invalidate { memory, at },
            EffectView::Relate(supersedes(superseded_by, memory, now)),
        ],
{
    let mut out: Vec<Effect> = Vec::new();
    out.push(Effect::Invalidate { memory, at });
    out.push(
        Effect::Relate(
            MemoryEdge::plain(
                superseded_by,
                memory,
                EdgeType::Supersedes,
                Single { bits: 0x3f80_0000 },
                now,
                None,
            ),
        ),
    );
    assert(views_of(out@) =~= seq![
        EffectView::Invalidate { memory, at },
        EffectView::Relate(supersedes(superseded_by, memory, now)),
    ]);
    out
}

/// What an inferred action does to the store, in order.
pub fn apply_inferred_action(action: InferredAction, now: Timestamp) -> (res: Vec<Effect>)
    ensures
        views_of(res@) == effects_of(action, now),
{
    match action {
        InferredAction::CreateEdge { source, target, edge_type, weight } => one_effect(
            Effect::Relate(MemoryEdge::plain(source, target, edge_type, weight, now, None)),
        ),
        InferredAction::InvalidateMemory { memory, superseded_by, valid_until } =>
            invalidate_and_supersede(memory, superseded_by, valid_until, now),
        InferredAction::MarkObsolete { memory, superseded_by } => invalidate_and_supersede(
            memory,
            superseded_by,
            now,
            now,
        ),
        InferredAction::FlagContradiction { existing, new, reason } => one_effect(
            Effect::Relate(
                MemoryEdge::plain(
                    new,
                    existing,
                    EdgeType::Contradicts,
                    Single { bits: 0x3f80_0000 },
                    now,
                    Some(reason),
                ),
            ),
        ),
        InferredAction::UpdateConfidence { memory, new_confidence } => one_effect(
            Effect::SetConfidence { memory, confidence: new_confidence },
        ),
        InferredAction::PropagateBeliefChange { root, delta } => one_effect(
            Effect::Spread { root, delta },
        ),
        InferredAction::UpdateContent { memory, new_content, reason } => one_effect(
            Effect::SetContent { memory, content: new_content },
        ),
    }
}

/// A memory that an action ends the validity of, or that it contradicts, is the
/// target of an edge that keeps it out of later recalls.
pub proof fn law_invalidation_leaves_edge(action: InferredAction, now: Timestamp)
    ensures
        action matches InferredAction::InvalidateMemory { memory, superseded_by, valid_until }
            ==> effects_of(action, now).last() == EffectView::Relate(
            supersedes(superseded_by, memory, now),
        ),
        action matches InferredAction::MarkObsolete { memory, superseded_by } ==> effects_of(
            action,
            now,
        ).last() == EffectView::Relate(supersedes(superseded_by, memory, now)),
        action matches InferredAction::FlagContradiction { existing, new, reason } ==> (
        effects_of(action, now)[0] matches EffectView::Relate(e) && e.target == existing
            && e.edge_type == EdgeType::Contradicts),
{
}

/// How many similar memories inference compares a new one with.
pub const INFERENCE_CANDIDATES: usize = 20;

/// The memories that a new one is compared with: those that were found, without
/// itself.
pub open spec fn compared(hits: Seq<ScoredHit>, new_id: MemoryId) -> Seq<MemoryId> {
    hits.filter(|h: ScoredHit| h.id != new_id).map_values(|h: ScoredHit| h.id)
}

/// The memories that a new one is compared with.
pub fn inference_candidates(hits: &Vec<ScoredHit>, new_id: MemoryId) -> (res: Vec<MemoryId>)
    ensures
        res@ == compared(hits@, new_id),
{
    let ghost keep = |h: ScoredHit| h.id != new_id;
    let ghost pick = |h: ScoredHit| h.id;
    let mut out: Vec<MemoryId> = Vec::new();
    proof {
        assert(hits@.take(0).filter(keep) =~= Seq::empty()) by {
            reveal(Seq::filter);
        }
        assert(out@ =~= hits@.take(0).filter(keep).map_values(pick));
    }
    for i in 0..hits.len()
        invariant
            keep == (|h: ScoredHit| h.id != new_id),
            pick == (|h: ScoredHit| h.id),
            out@ == hits@.take(i as int).filter(keep).map_values(pick),
    {
        proof {
            assert(hits@.take(i + 1) =~= hits@.take(i as int).push(hits@[i as int]));
            hits@.take(i as int).lemma_filter_push(hits@[i as int], keep);
        }
        if hits[i].id != new_id {
            out.push(hits[i].id);
        }
        assert(out@ =~= hits@.take(i + 1).filter(keep).map_values(pick));
    }
    proof {
        assert(hits@.take(hits.len() as int) =~= hits@);
    }
    out
}

/// A memory with another confidence.
pub fn with_confidence(node: MemoryNode, confidence: Single) -> (res: MemoryNode)
    ensures
        res@ == (MemoryView { confidence, ..node@ }),
{
    let mut n = node;
    n.confidence = confidence;
    n
}

/// A memory with another content.
pub fn with_content(node: MemoryNode, content: String) -> (res: MemoryNode)
    ensures
        res@ == (MemoryView { content: content@, ..node@ }),
{
    let mut n = node;
    n.content = content;
    n
}

/// A memory with another salience.
pub fn with_salience(node: MemoryNode, salience: Single) -> (res: MemoryNode)
    ensures
        res@ == (MemoryView { salience, ..node@ }),
{
    let mut n = node;
    n.salience = salience;
    n
}

// ---------------------------------------------------------------------------
// Consolidation
// ---------------------------------------------------------------------------
/// What consolidation leaves of its sources: each is no longer valid, and the
/// new memory is derived from it.
pub open spec fn consolidation_of(
    new_id: MemoryId,
    sources: Seq<MemoryId>,
    now: Timestamp,
) -> Seq<EffectView>
    decreases sources.len(),
{
    if sources.len() == 0 {
        Seq::empty()
    } else {
        consolidation_of(new_id, sources.drop_last(), now) + seq![
            EffectView::Invalidate { memory: sources.last(), at: now },
            EffectView::Relate(
                plain_edge(new_id, sources.last(), EdgeType::Derived, full_weight(), now, None),
            ),
        ]
    }
}

/// A cluster to consolidate needs at least two memories that still exist.
pub fn check_cluster(found: usize) -> (res: Result<(), MenteError>)
    ensures
        match res {
            Ok(_) => found >= 2,
            Err(e) => found < 2 && e@ == ErrorView::Query(
                "consolidation requires at least 2 memories"@,
            ),
        },
{
    if found < 2 {
        return Err(
            MenteError::Query(copy_text("consolidation requires at least 2 memories")),
        );
    }
    Ok(())
}

/// What is done to the sources once the consolidated memory is stored.
pub fn consolidate_sources(new_id: MemoryId, sources: &Vec<MemoryId>, now: Timestamp) -> (res: Vec<
    Effect,
>)
    ensures
        views_of(res@) == consolidation_of(new_id, sources@, now),
{
    let mut out: Vec<Effect> = Vec::new();
    proof {
        assert(views_of(out@) =~= consolidation_of(new_id, sources@.take(0), now));
    }
    for i in 0..sources.len()
        invariant
            views_of(out@) == consolidation_of(new_id, sources@.take(i as int), now),
    {
        let ghost before = out@;
        proof {
            assert(sources@.take(i + 1).drop_last() =~= sources@.take(i as int));
        }
        let invalidate = Effect::Invalidate { memory: sources[i], at: now };
        let relate = Effect::Relate(
            MemoryEdge::plain(
                new_id,
                sources[i],
                EdgeType::Derived,
                Single { bits: 0x3f80_0000 },
                now,
                None,
            ),
        );
        out.push(invalidate);
        out.push(relate);
        assert(views_of(out@) =~= views_of(before) + seq![invalidate@, relate@]);
    }
    proof {
        assert(sources@.take(sources.len() as int) =~= sources@);
    }
    out
}

/// The consolidated memory: of the agent of the first source, with the type,
/// text, embedding and confidence that the merge gave.
pub fn consolidated_memory(
    id: MemoryId,
    first: &MemoryNode,
    memory_type: crate::memory::MemoryType,
    summary: String,
    embedding: Vec<Single>,
    confidence: Single,
    now: Timestamp,
) -> (res: MemoryNode)
    ensures
        res@ == (MemoryView {
            confidence,
            ..crate::memory::fresh_memory(
                id,
                first.agent_id,
                memory_type,
                summary@,
                embedding@,
                now,
            )
        }),
{
    let mut node = MemoryNode::at(id, first.agent_id, memory_type, summary, embedding, now);
    node.confidence = confidence;
    node
}

// ---------------------------------------------------------------------------
// Archival
// ---------------------------------------------------------------------------
/// What the archival pipeline decides of a memory.
#[derive(Debug)]
pub enum ArchivalDecision {
    Keep,
    Archive,
    Delete,
    /// The memory is one of a cluster that is ready to be merged.
    Consolidate(Vec<MemoryId>),
}

/// The decision that counts: without archival evaluation every memory is kept.
pub fn evaluate_archival(enabled: bool, decision: ArchivalDecision) -> (res: ArchivalDecision)
    ensures
        res == if enabled {
            decision
        } else {
            ArchivalDecision::Keep
        },
{
    if enabled {
        decision
    } else {
        ArchivalDecision::Keep
    }
}

/// The decisions for a batch, each with its memory: all are kept where the
/// evaluation is off.
pub fn evaluate_archival_batch(
    enabled: bool,
    memories: &Vec<MemoryNode>,
    decisions: Vec<ArchivalDecision>,
) -> (res: Vec<(MemoryId, ArchivalDecision)>)
    requires
        decisions@.len() == memories@.len(),
    ensures
        res@.len() == memories@.len(),
        forall|i: int|
            0 <= i < res@.len() ==> (#[trigger] res@[i]).0 == memories@[i].id && res@[i].1 == (
            if enabled {
                decisions@[i]
            } else {
                ArchivalDecision::Keep
            }),
{
    let mut out: Vec<(MemoryId, ArchivalDecision)> = Vec::new();
    for decision in it: decisions
        invariant
            it.seq() == decisions@,
            decisions@.len() == memories@.len(),
            out@.len() == it.index(),
            forall|i: int|
                0 <= i < out@.len() ==> (#[trigger] out@[i]).0 == memories@[i].id && out@[i].1 == (
                if enabled {
                    decisions@[i]
                } else {
                    ArchivalDecision::Keep
                }),
    {
        let id = memories[out.len()].id;
        out.push((id, evaluate_archival(enabled, decision)));
    }
    out
}

// ---------------------------------------------------------------------------
// Query plans
// ---------------------------------------------------------------------------
/// A parsed query.
#[derive(Debug)]
pub enum QueryPlan {
    VectorSearch { query: Vec<Single>, k: usize },
    TagScan { tags: Vec<String>, limit: Option<usize> },
    TemporalScan { start: Timestamp, end: Timestamp },
    GraphTraversal { root: MemoryId, depth: usize },
    PointLookup { id: MemoryId },
    Other,
}

/// How a query is answered.
#[derive(Debug)]
pub enum PlanAction {
    /// Search with the query embedding of the plan.
    Search(SearchRequest),
    /// Scan what the filters admit; there is no query.
    Scan(SearchRequest),
    /// Walk the graph; every memory found scores 1.
    Traverse { root: MemoryId, depth: usize },
    /// Read one memory, which must exist; it scores 1.
    Lookup { id: MemoryId },
    /// Nothing is found.
    Nothing,
}

/// How many memories a scan of tags gives where the query sets no limit.
pub const TAG_SCAN_LIMIT: usize = 10;

/// How many memories a scan of a time range gives.
pub const TEMPORAL_SCAN_LIMIT: usize = 100;

/// Whether a search request is the given one.
pub open spec fn is_request(
    r: SearchRequest,
    embedding_len: nat,
    tags: Option<Seq<Seq<char>>>,
    time_range: Option<(Timestamp, Timestamp)>,
    k: usize,
) -> bool {
    &&& r.embedding_len == embedding_len
    &&& r.query_text is None
    &&& crate::recall::opt_list(r.tags) == tags
    &&& !r.tags_or
    &&& r.time_range == time_range
    &&& r.k == k
}

/// Decides how a query is answered.
pub fn execute_plan(plan: &QueryPlan) -> (res: PlanAction)
    ensures
        match *plan {
            QueryPlan::VectorSearch { query, k } => res matches PlanAction::Search(r)
                && is_request(r, query@.len(), None, None, k),
            QueryPlan::TagScan { tags, limit } => res matches PlanAction::Scan(r)
                && is_request(
                r,
                0,
                Some(views(tags@)),
                None,
                match limit {
                    Some(n) => n,
                    None => TAG_SCAN_LIMIT,
                },
            ),
            QueryPlan::TemporalScan { start, end } => res matches PlanAction::Scan(r)
                && is_request(r, 0, None, Some((start, end)), TEMPORAL_SCAN_LIMIT),
            QueryPlan::GraphTraversal { root, depth } => res == (PlanAction::Traverse {
                root,
                depth,
            }),
            QueryPlan::PointLookup { id } => res == (PlanAction::Lookup { id }),
            QueryPlan::Other => res == PlanAction::Nothing,
        },
{
    match plan {
        QueryPlan::VectorSearch { query, k } => PlanAction::Search(
            SearchRequest {
                embedding_len: query.len(),
                query_text: None,
                tags: None,
                tags_or: false,
                time_range: None,
                k: *k,
            },
        ),
        QueryPlan::TagScan { tags, limit } => PlanAction::Scan(
            SearchRequest {
                embedding_len: 0,
                query_text: None,
                tags: Some(copy_texts(tags)),
                tags_or: false,
                time_range: None,
                k: match limit {
                    Some(n) => *n,
                    None => TAG_SCAN_LIMIT,
                },
            },
        ),
        QueryPlan::TemporalScan { start, end } => PlanAction::Scan(
            SearchRequest {
                embedding_len: 0,
                query_text: None,
                tags: None,
                tags_or: false,
                time_range: Some((*start, *end)),
                k: TEMPORAL_SCAN_LIMIT,
            },
        ),
        QueryPlan::GraphTraversal { root, depth } => PlanAction::Traverse {
            root: *root,
            depth: *depth,
        },
        QueryPlan::PointLookup { id } => PlanAction::Lookup { id: *id },
        QueryPlan::Other => PlanAction::Nothing,
    }
}

/// The order of loaded memories: by their blended scores where decay counts,
/// else as they were found.
pub fn order_scored(scored: Vec<ScoredHit>, decay_on_recall: bool) -> (res: Vec<ScoredHit>)
    ensures
        res@ == if decay_on_recall {
            by_score(scored@)
        } else {
            scored@
        },
{
    if decay_on_recall {
        rank_recall(scored)
    } else {
        scored
    }
}

} // verus!
