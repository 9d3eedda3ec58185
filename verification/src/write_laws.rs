//! What holds of every write: it is recorded, and the vectors follow the
//! memories. And what holds of tracing: it touches traces alone.
use crate::audit::{edges_delete_record, memory_delete_record};
use crate::codec::dimension_conflict;
use crate::extraction_jobs::ValidatedExtractionBatch;
use crate::float::Single;
use crate::memory::{EdgeView, MemoryId, MemoryView};
use crate::records::{
    ClaimEntityLink, ClaimEvidence, ClaimRecord, ConversationEvent, ConversationRecord,
    EntityAlias, EntityRecord, EntityRelationship, ExtractionRun, MemoryEntityLink, MemorySource,
    RelationshipEvidence,
};
use crate::search::RetrievalConfig;
use crate::tables::{
    after_delete, after_store, applied, applied_all, lemma_applied_concat, lemma_applied_one,
    lemma_applied_two, lemma_batch_prefix, lemma_delete, lemma_store, Tables,
};
use crate::traces::{TraceColumns, TraceHitColumns};
use crate::writes::{
    alias_all, alias_steps, artifact_steps, batch_steps, bundle_steps, claim_bundle_steps,
    claim_entity_all, claim_entity_steps, claim_evidence_all, claim_evidence_steps, claim_steps,
    conversation_steps, delete_steps, edge_steps, entity_all, entity_steps, event_steps,
    first_conflict, fitting_steps, memory_entity_all, memory_entity_steps, purge_steps,
    rebuild_steps, relationship_evidence_all, relationship_evidence_steps, relationship_steps,
    replace_steps, run_steps, source_steps, store_steps, trace_steps, Step,
};
use vstd::prelude::*;

verus! {

// ---------------------------------------------------------------------------
// The audit trail
// ---------------------------------------------------------------------------
/// Whether what the steps change is recorded after it.
pub open spec fn is_recorded(steps: Seq<Step>) -> bool {
    steps.len() > 0 ==> steps.last() is Record
}

proof fn lemma_recorded_concat(a: Seq<Step>, b: Seq<Step>)
    requires
        is_recorded(a),
        is_recorded(b),
    ensures
        is_recorded(a + b),
{
    if b.len() > 0 {
        assert((a + b).last() == b.last());
    } else {
        assert(a + b =~= a);
    }
}

proof fn lemma_entities_recorded(items: Seq<EntityRecord>)
    ensures
        is_recorded(entity_all(items)),
    decreases items.len(),
{
    if items.len() > 0 {
        lemma_entities_recorded(items.drop_last());
        lemma_recorded_concat(entity_all(items.drop_last()), entity_steps(items.last()));
    }
}

proof fn lemma_aliases_recorded(items: Seq<EntityAlias>)
    ensures
        is_recorded(alias_all(items)),
    decreases items.len(),
{
    if items.len() > 0 {
        lemma_aliases_recorded(items.drop_last());
        lemma_recorded_concat(alias_all(items.drop_last()), alias_steps(items.last()));
    }
}

proof fn lemma_links_recorded(items: Seq<MemoryEntityLink>)
    ensures
        is_recorded(memory_entity_all(items)),
    decreases items.len(),
{
    if items.len() > 0 {
        lemma_links_recorded(items.drop_last());
        lemma_recorded_concat(
            memory_entity_all(items.drop_last()),
            memory_entity_steps(items.last()),
        );
    }
}

proof fn lemma_claim_entities_recorded(items: Seq<ClaimEntityLink>)
    ensures
        is_recorded(claim_entity_all(items)),
    decreases items.len(),
{
    if items.len() > 0 {
        lemma_claim_entities_recorded(items.drop_last());
        lemma_recorded_concat(
            claim_entity_all(items.drop_last()),
            claim_entity_steps(items.last()),
        );
    }
}

proof fn lemma_claim_evidence_recorded(items: Seq<ClaimEvidence>)
    ensures
        is_recorded(claim_evidence_all(items)),
    decreases items.len(),
{
    if items.len() > 0 {
        lemma_claim_evidence_recorded(items.drop_last());
        lemma_recorded_concat(
            claim_evidence_all(items.drop_last()),
            claim_evidence_steps(items.last()),
        );
    }
}

proof fn lemma_relationship_evidence_recorded(items: Seq<RelationshipEvidence>)
    ensures
        is_recorded(relationship_evidence_all(items)),
    decreases items.len(),
{
    if items.len() > 0 {
        lemma_relationship_evidence_recorded(items.drop_last());
        lemma_recorded_concat(
            relationship_evidence_all(items.drop_last()),
            relationship_evidence_steps(items.last()),
        );
    }
}

proof fn lemma_batch_recorded(nodes: Seq<MemoryView>, dim: usize)
    ensures
        is_recorded(batch_steps(nodes, dim)),
    decreases nodes.len(),
{
    if nodes.len() > 0 {
        lemma_batch_recorded(nodes.drop_last(), dim);
        lemma_recorded_concat(
            batch_steps(nodes.drop_last(), dim),
            store_steps(nodes.last(), dim),
        );
    }
}

/// Every write of memories and edges is recorded, be it a store, a batch, a
/// deletion, or a rebuild of the index.
pub proof fn law_memory_writes_are_recorded(
    m: MemoryView,
    nodes: Seq<MemoryView>,
    dim: usize,
    source: MemorySource,
    e: EdgeView,
    rowid: i64,
    tags: usize,
    edges: usize,
    rows: Seq<(MemoryId, Seq<Single>)>,
)
    ensures
        is_recorded(store_steps(m, dim)),
        is_recorded(store_steps(m, dim) + source_steps(source)),
        is_recorded(batch_steps(nodes, dim)),
        is_recorded(
            delete_steps(m.id).push(Step::Record(memory_delete_record(m.id, rowid, tags, edges))),
        ),
        is_recorded(edge_steps(e)),
        is_recorded(
            seq![Step::EdgesClear(m.id)].push(Step::Record(edges_delete_record(m.id, edges))),
        ),
        is_recorded(rebuild_steps(rows, dim)),
{
    lemma_batch_recorded(nodes, dim);
    lemma_recorded_concat(store_steps(m, dim), source_steps(source));
}

/// Every write of a record is recorded.
pub proof fn law_record_writes_are_recorded(
    source: MemorySource,
    entity: EntityRecord,
    alias: EntityAlias,
    link: MemoryEntityLink,
    conversation: ConversationRecord,
    event: ConversationEvent,
    run: ExtractionRun,
    claim: ClaimRecord,
    claim_entity: ClaimEntityLink,
    claim_evidence: ClaimEvidence,
    relationship: EntityRelationship,
    evidence: RelationshipEvidence,
)
    ensures
        is_recorded(source_steps(source)),
        is_recorded(entity_steps(entity)),
        is_recorded(alias_steps(alias)),
        is_recorded(memory_entity_steps(link)),
        is_recorded(conversation_steps(conversation)),
        is_recorded(seq![Step::ConversationTouch(event@)] + event_steps(event)),
        is_recorded(run_steps(run)),
        is_recorded(claim_steps(claim)),
        is_recorded(claim_entity_steps(claim_entity)),
        is_recorded(claim_evidence_steps(claim_evidence)),
        is_recorded(relationship_steps(relationship)),
        is_recorded(relationship_evidence_steps(evidence)),
{
}

/// Every write of several records at once is recorded.
pub proof fn law_bundles_are_recorded(
    id: MemoryId,
    entities: Seq<EntityRecord>,
    aliases: Seq<EntityAlias>,
    links: Seq<MemoryEntityLink>,
    claim: ClaimRecord,
    claim_entities: Seq<ClaimEntityLink>,
    claim_evidence: Seq<ClaimEvidence>,
    relationship: EntityRelationship,
    evidence: Seq<RelationshipEvidence>,
    batch: ValidatedExtractionBatch,
)
    ensures
        is_recorded(bundle_steps(entities, aliases, links)),
        is_recorded(replace_steps(id, entities, aliases, links)),
        is_recorded(claim_bundle_steps(claim, claim_entities, claim_evidence)),
        is_recorded(relationship_steps(relationship) + relationship_evidence_all(evidence)),
        is_recorded(artifact_steps(batch)),
{
    lemma_entities_recorded(entities);
    lemma_aliases_recorded(aliases);
    lemma_links_recorded(links);
    lemma_recorded_concat(entity_all(entities), alias_all(aliases));
    lemma_recorded_concat(entity_all(entities) + alias_all(aliases), memory_entity_all(links));
    lemma_claim_entities_recorded(claim_entities);
    lemma_claim_evidence_recorded(claim_evidence);
    lemma_recorded_concat(claim_steps(claim), claim_entity_all(claim_entities));
    lemma_recorded_concat(
        claim_steps(claim) + claim_entity_all(claim_entities),
        claim_evidence_all(claim_evidence),
    );
    lemma_relationship_evidence_recorded(evidence);
    lemma_recorded_concat(relationship_steps(relationship), relationship_evidence_all(evidence));
}

// ---------------------------------------------------------------------------
// The vector index
// ---------------------------------------------------------------------------
/// The vectors of the memories whose embeddings have the dimension of the index,
/// none where there is no index.
pub open spec fn projection(memories: Map<MemoryId, MemoryView>, dim: usize) -> Map<
    MemoryId,
    Seq<Single>,
> {
    Map::new(
        |id: MemoryId|
            dim > 0 && memories.contains_key(id) && memories[id].embedding.len() == dim,
        |id: MemoryId| memories[id].embedding,
    )
}

/// Whether the vectors are those of the memories.
pub open spec fn vectors_follow(db: Tables, dim: usize) -> bool {
    db.vectors == projection(db.memories, dim)
}

/// Whether the rows are the embeddings that the memories have.
pub open spec fn reads_embeddings(rows: Seq<(MemoryId, Seq<Single>)>, db: Tables) -> bool {
    &&& forall|i: int|
        0 <= i < rows.len() ==> db.memories.contains_key((#[trigger] rows[i]).0)
            && db.memories[rows[i].0].embedding == rows[i].1
    &&& forall|id: MemoryId| #[trigger]
        db.memories.contains_key(id) && db.memories[id].embedding.len() > 0
            ==> rows.contains((id, db.memories[id].embedding))
}

proof fn lemma_fitting(db: Tables, rows: Seq<(MemoryId, Seq<Single>)>, dim: usize)
    ensures
        ({
            let after = applied_all(db, fitting_steps(rows, dim));
            &&& after == (Tables { vectors: after.vectors, ..db })
            &&& forall|id: MemoryId| #[trigger]
                after.vectors.contains_key(id) <==> db.vectors.contains_key(id) || exists|v|
                    #[trigger]
                    rows.contains((id, v)) && v.len() == dim
            &&& forall|id: MemoryId| #[trigger]
                after.vectors.contains_key(id) ==> (db.vectors.contains_key(id)
                    && after.vectors[id] == db.vectors[id]) || (rows.contains(
                    (id, after.vectors[id]),
                ) && after.vectors[id].len() == dim)
        }),
    decreases rows.len(),
{
    if rows.len() > 0 {
        let head = rows.drop_last();
        let (id, v) = rows.last();
        lemma_fitting(db, head, dim);
        let mid = applied_all(db, fitting_steps(head, dim));
        let after = applied_all(db, fitting_steps(rows, dim));
        assert forall|x: (MemoryId, Seq<Single>)| #[trigger] rows.contains(x) <==> head.contains(x)
            || x == rows.last() by {
            if rows.contains(x) {
                let k = choose|k: int| 0 <= k < rows.len() && rows[k] == x;
                if k < head.len() {
                    assert(head[k] == x);
                }
            }
            if head.contains(x) {
                let k = choose|k: int| 0 <= k < head.len() && head[k] == x;
                assert(rows[k] == x);
            }
            if x == rows.last() {
                assert(rows[rows.len() - 1] == x);
            }
        }
        if v.len() == dim {
            let steps = fitting_steps(rows, dim);
            assert(steps.drop_last() =~= fitting_steps(head, dim));
            assert(after == applied(mid, Step::Vector(id, v)));
            assert(rows.contains((id, v)));
        }
        assert forall|other: MemoryId| #[trigger] after.vectors.contains_key(other)
            <==> db.vectors.contains_key(other) || exists|w| #[trigger]
            rows.contains((other, w)) && w.len() == dim by {
            if mid.vectors.contains_key(other) && !db.vectors.contains_key(other) {
                let w = choose|w| #[trigger] head.contains((other, w)) && w.len() == dim;
                assert(rows.contains((other, w)));
            }
            if exists|w| #[trigger] rows.contains((other, w)) && w.len() == dim {
                let w = choose|w| #[trigger] rows.contains((other, w)) && w.len() == dim;
                if (other, w) != rows.last() {
                    assert(head.contains((other, w)));
                }
            }
        }
    }
}

/// Building the index anew loses nothing: every table but the vectors is as it
/// was, the vectors are those of the memories, and the audit trail has one more
/// record.
pub proof fn law_rebuild_loses_nothing(
    db: Tables,
    rows: Seq<(MemoryId, Seq<Single>)>,
    dim: usize,
)
    requires
        dim > 0,
        reads_embeddings(rows, db),
    ensures
        ({
            let after = applied_all(db, rebuild_steps(rows, dim));
            &&& vectors_follow(after, dim)
            &&& after == (Tables {
                vectors: after.vectors,
                operations: db.operations.push(rebuild_steps(rows, dim).last()->Record_0),
                ..db
            })
        }),
{
    let clear = seq![Step::VectorsClear];
    let fitting = fitting_steps(rows, dim);
    let record = rebuild_steps(rows, dim).last();
    let d1 = applied_all(db, clear);
    lemma_applied_one(db, Step::VectorsClear);
    lemma_fitting(d1, rows, dim);
    let d2 = applied_all(d1, fitting);
    lemma_applied_concat(db, clear, fitting);
    lemma_applied_concat(db, clear + fitting, seq![record]);
    lemma_applied_one(d2, record);
    let after = applied_all(db, rebuild_steps(rows, dim));
    assert forall|id: MemoryId| #[trigger] after.vectors.contains_key(id) <==> projection(
        db.memories,
        dim,
    ).contains_key(id) by {
        if projection(db.memories, dim).contains_key(id) {
            assert(rows.contains((id, db.memories[id].embedding)));
        }
        if after.vectors.contains_key(id) {
            let v = choose|v| #[trigger] rows.contains((id, v)) && v.len() == dim;
            let k = choose|k: int| 0 <= k < rows.len() && rows[k] == (id, v);
            assert(rows[k].0 == id);
        }
    }
    assert forall|id: MemoryId| #[trigger] after.vectors.contains_key(id) implies
        after.vectors[id] == db.memories[id].embedding by {
        let v = after.vectors[id];
        let k = choose|k: int| 0 <= k < rows.len() && rows[k] == (id, v);
        assert(rows[k].0 == id);
    }
    assert(after.vectors =~= projection(after.memories, dim));
}

/// The vectors follow the memories through every store that is accepted.
pub proof fn law_store_keeps_vectors(db: Tables, m: MemoryView, dim: usize)
    requires
        vectors_follow(db, dim),
        !dimension_conflict(dim, m.embedding.len()),
    ensures
        vectors_follow(after_store(db, m, dim), dim),
{
    lemma_store(db, m, dim);
    let after = after_store(db, m, dim);
    assert(after.vectors =~= projection(after.memories, dim));
}

/// The vectors follow the memories through every batch that is accepted.
pub proof fn law_batch_keeps_vectors(db: Tables, nodes: Seq<MemoryView>, dim: usize)
    requires
        vectors_follow(db, dim),
        first_conflict(nodes, dim) is None,
    ensures
        vectors_follow(applied_all(db, batch_steps(nodes, dim)), dim),
    decreases nodes.len(),
{
    if nodes.len() > 0 {
        let head = nodes.drop_last();
        law_batch_keeps_vectors(db, head, dim);
        lemma_batch_prefix(nodes, dim, nodes.len() - 1);
        let mid = applied_all(db, batch_steps(head, dim));
        law_store_keeps_vectors(mid, nodes.last(), dim);
        lemma_applied_concat(db, batch_steps(head, dim), store_steps(nodes.last(), dim));
    }
}

/// The vectors follow the memories through a deletion.
pub proof fn law_delete_keeps_vectors(db: Tables, id: MemoryId, dim: usize)
    requires
        vectors_follow(db, dim),
    ensures
        vectors_follow(after_delete(db, id), dim),
{
    lemma_delete(db, id);
    let after = after_delete(db, id);
    assert(after.vectors =~= projection(after.memories, dim));
}

/// The vectors follow the memories through every other step: one that touches
/// neither a memory nor a vector.
pub proof fn law_other_steps_keep_vectors(db: Tables, step: Step, dim: usize)
    requires
        vectors_follow(db, dim),
        !(step is Memory || step is MemoryClear || step is Vector || step is VectorClear
            || step is VectorsClear),
    ensures
        vectors_follow(applied(db, step), dim),
{
}

// ---------------------------------------------------------------------------
// Traces
// ---------------------------------------------------------------------------
/// The tables with other traces.
pub open spec fn with_traces(db: Tables, other: Tables) -> Tables {
    Tables { traces: other.traces, trace_hits: other.trace_hits, ..db }
}

proof fn lemma_trace_steps(
    db: Tables,
    row: TraceColumns,
    config: RetrievalConfig,
    hits: Seq<TraceHitColumns>,
)
    ensures
        ({
            let after = applied_all(db, trace_steps(row, config, hits));
            &&& after == with_traces(db, after)
            &&& after.traces == db.traces.insert(row.trace_id, (row, config))
        }),
    decreases hits.len(),
{
    let steps = trace_steps(row, config, hits);
    if hits.len() == 0 {
        assert(steps =~= seq![Step::Trace(row, config)]);
        lemma_applied_one(db, Step::Trace(row, config));
    } else {
        lemma_trace_steps(db, row, config, hits.drop_last());
        assert(steps.drop_last() =~= trace_steps(row, config, hits.drop_last()));
        assert(steps.last() == Step::TraceHit(hits.last()));
    }
}

proof fn lemma_purge_steps(db: Tables, stale: Seq<Seq<char>>)
    ensures
        ({
            let after = applied_all(db, purge_steps(stale));
            &&& after == with_traces(db, after)
            &&& forall|id: Seq<char>| #[trigger]
                after.traces.contains_key(id) <==> db.traces.contains_key(id) && !stale.contains(id)
        }),
    decreases stale.len(),
{
    if stale.len() > 0 {
        let fewer = stale.drop_last();
        let id = stale.last();
        lemma_purge_steps(db, fewer);
        let mid = applied_all(db, purge_steps(fewer));
        let steps = purge_steps(stale);
        let a = Step::TraceHitsClear(id);
        let b = Step::TraceClear(id);
        assert(steps =~= purge_steps(fewer) + seq![a, b]);
        lemma_applied_concat(db, purge_steps(fewer), seq![a, b]);
        lemma_applied_two(mid, a, b);
        let after = applied_all(db, steps);
        assert(after == applied(applied(mid, a), b));
        assert forall|x: Seq<char>| #[trigger]
            after.traces.contains_key(x) <==> db.traces.contains_key(x) && !stale.contains(x) by {
            assert(stale.contains(x) <==> fewer.contains(x) || x == id) by {
                if stale.contains(x) {
                    let k = choose|k: int| 0 <= k < stale.len() && stale[k] == x;
                    if k < fewer.len() {
                        assert(fewer[k] == x);
                    }
                }
                if fewer.contains(x) {
                    let k = choose|k: int| 0 <= k < fewer.len() && fewer[k] == x;
                    assert(stale[k] == x);
                }
                assert(stale[stale.len() - 1] == id);
            }
        }
    }
}

/// Recording a trace and dropping old ones changes traces and nothing else: not a
/// memory, a tag, an edge, a vector or an audit record. A search after it reads
/// what it would have read before, and `SearchOutcome::conclude` gives the same
/// results with and without a trace. The trace is there unless it is among those
/// that are dropped.
pub proof fn law_tracing_changes_only_traces(
    db: Tables,
    row: TraceColumns,
    config: RetrievalConfig,
    hits: Seq<TraceHitColumns>,
    stale: Seq<Seq<char>>,
)
    ensures
        ({
            let after = applied_all(
                applied_all(db, trace_steps(row, config, hits)),
                purge_steps(stale),
            );
            &&& after == with_traces(db, after)
            &&& after.memories == db.memories
            &&& after.tags == db.tags
            &&& after.edges == db.edges
            &&& after.vectors == db.vectors
            &&& after.operations == db.operations
            &&& forall|id: Seq<char>| #[trigger]
                after.traces.contains_key(id) <==> (db.traces.contains_key(id) || id
                    == row.trace_id) && !stale.contains(id)
        }),
{
    lemma_trace_steps(db, row, config, hits);
    lemma_purge_steps(applied_all(db, trace_steps(row, config, hits)), stale);
}

} // verus!
