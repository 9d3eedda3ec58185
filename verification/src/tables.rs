//! What the steps of a plan do to the tables, and what follows for the writes.
//!
//! The tables are mathematical here: a step is a function from tables to
//! tables. The laws at the end speak of whole writes.
use crate::audit::{memory_upsert_record, OperationView};
use crate::codec::{dimension_conflict, signed_bits};
use crate::float::Single;
use crate::memory::{EdgeView, MemoryId, MemoryView};
use crate::records::{
    AliasColumns, ClaimEntityView, ClaimEvidenceView, ClaimView, ConversationView, EntityColumns,
    EventView, ExtractionView, LinkColumns, RelationshipEvidenceView, RelationshipView, SourceView,
};
use crate::search::RetrievalConfig;
use crate::traces::{TraceColumns, TraceHitColumns};
use crate::writes::{
    batch_steps, delete_steps, edge_steps, first_conflict, role_column_of, role_of, store_steps,
    tag_steps, vector_steps, Step,
};
use vstd::prelude::*;

verus! {

/// The tables of the store.
#[verifier::ext_equal]
pub struct Tables {
    /// The rows of the memories; the tags of a row stand in `tags`.
    pub memories: Map<MemoryId, MemoryView>,
    pub tags: Set<(MemoryId, Seq<char>)>,
    pub vectors: Map<MemoryId, Seq<Single>>,
    pub edges: Seq<EdgeView>,
    /// The audit records, oldest first.
    pub operations: Seq<OperationView>,
    pub sources: Map<Seq<char>, SourceView>,
    pub entities: Map<Seq<char>, EntityColumns>,
    /// The aliases, by entity and alias.
    pub aliases: Map<(Seq<char>, Seq<char>), AliasColumns>,
    /// The links of memories to entities, by memory, entity and role column.
    pub memory_entities: Map<(MemoryId, Seq<char>, Seq<char>), LinkColumns>,
    pub conversations: Map<Seq<char>, ConversationView>,
    pub events: Map<Seq<char>, EventView>,
    pub runs: Map<Seq<char>, ExtractionView>,
    pub claims: Map<Seq<char>, ClaimView>,
    /// The links of claims to entities, by claim, entity and role.
    pub claim_entities: Map<(Seq<char>, Seq<char>, Seq<char>), ClaimEntityView>,
    pub claim_evidence: Map<Seq<char>, ClaimEvidenceView>,
    pub relationships: Map<Seq<char>, RelationshipView>,
    pub relationship_evidence: Map<Seq<char>, RelationshipEvidenceView>,
    /// The headers of traces, with the tuning of their searches.
    pub traces: Map<Seq<char>, (TraceColumns, RetrievalConfig)>,
    /// The hits of traces, by trace and rank.
    pub trace_hits: Map<(Seq<char>, i64), TraceHitColumns>,
}

/// Whether an edge has a memory at one of its ends.
pub open spec fn at_edge(e: EdgeView, id: MemoryId) -> bool {
    e.source == id || e.target == id
}

/// Whether a stored memory carries a tag.
pub open spec fn carries(db: Tables, id: MemoryId, tag: Seq<char>) -> bool {
    db.memories.contains_key(id) && db.tags.contains((id, tag))
}

/// The row that storing a memory leaves: a row that was there keeps the time of
/// its creation.
pub open spec fn stored_row(db: Tables, m: MemoryView) -> MemoryView {
    MemoryView {
        created_at: if db.memories.contains_key(m.id) {
            db.memories[m.id].created_at
        } else {
            m.created_at
        },
        tags: Seq::empty(),
        ..m
    }
}

/// The rows of a table that satisfy a condition.
pub open spec fn kept<K, V>(table: Map<K, V>, keep: spec_fn(V) -> bool) -> Map<K, V> {
    Map::new(|k: K| table.contains_key(k) && keep(table[k]), |k: K| table[k])
}

/// Whether a source record belongs to a memory.
pub open spec fn is_source_of(db: Tables, source_id: Option<Seq<char>>, id: MemoryId) -> bool {
    source_id is Some && db.sources.contains_key(source_id->0) && db.sources[source_id->0].memory_id
        == id
}

/// The tables without the row of a memory: its provenance, its entity links and
/// the evidence in it go with it, runs on it and evidence from its provenance
/// lose the reference.
pub open spec fn without_memory(db: Tables, id: MemoryId) -> Tables {
    Tables {
        memories: db.memories.remove(id),
        sources: kept(db.sources, |s: SourceView| s.memory_id != id),
        memory_entities: kept(db.memory_entities, |l: LinkColumns| l.memory_id != id),
        runs: db.runs.map_values(
            |r: ExtractionView|
                if r.source_memory_id == Some(id) {
                    ExtractionView { source_memory_id: None, ..r }
                } else {
                    r
                },
        ),
        claim_evidence: kept(
            db.claim_evidence,
            |e: ClaimEvidenceView| e.memory_id != id,
        ).map_values(
            |e: ClaimEvidenceView|
                if is_source_of(db, e.source_id, id) {
                    ClaimEvidenceView { source_id: None, ..e }
                } else {
                    e
                },
        ),
        relationship_evidence: kept(
            db.relationship_evidence,
            |e: RelationshipEvidenceView| e.memory_id != id,
        ).map_values(
            |e: RelationshipEvidenceView|
                if is_source_of(db, e.source_id, id) {
                    RelationshipEvidenceView { source_id: None, ..e }
                } else {
                    e
                },
        ),
        ..db
    }
}

/// The key of the link of a memory to an entity.
pub open spec fn link_key(l: LinkColumns) -> (MemoryId, Seq<char>, Seq<char>) {
    (l.memory_id, l.entity_id, role_column_of(l.role))
}

/// A conversation that an event was added to: created with the event where it
/// is missing, and last changed when the event was observed, unless that is
/// longer ago than its last change.
pub open spec fn touched(db: Tables, e: EventView) -> ConversationView {
    let there = if db.conversations.contains_key(e.conversation_id) {
        db.conversations[e.conversation_id]
    } else {
        ConversationView {
            conversation_id: e.conversation_id,
            title: None,
            metadata_json: "{}"@,
            created_at: e.created_at,
            updated_at: e.created_at,
        }
    };
    ConversationView {
        updated_at: if signed_bits(e.observed_at) > signed_bits(there.updated_at) {
            e.observed_at
        } else {
            there.updated_at
        },
        ..there
    }
}

/// The tables after a record was written. A row that was there keeps the time of
/// its creation, or of its start, but for provenance.
pub open spec fn with_record(db: Tables, step: Step) -> Tables {
    match step {
        Step::Source(r) => Tables { sources: db.sources.insert(r.source_id, r), ..db },
        Step::Entity(r) => Tables {
            entities: db.entities.insert(
                r.entity_id,
                if db.entities.contains_key(r.entity_id) {
                    EntityColumns { created_at: db.entities[r.entity_id].created_at, ..r }
                } else {
                    r
                },
            ),
            ..db
        },
        Step::Alias(r) => Tables { aliases: db.aliases.insert((r.entity_id, r.alias), r), ..db },
        Step::MemoryEntity(r) => Tables {
            memory_entities: db.memory_entities.insert(
                link_key(r),
                LinkColumns { role: role_of(role_column_of(r.role)), ..r },
            ),
            ..db
        },
        Step::Conversation(r) => Tables {
            conversations: db.conversations.insert(
                r.conversation_id,
                if db.conversations.contains_key(r.conversation_id) {
                    ConversationView {
                        created_at: db.conversations[r.conversation_id].created_at,
                        ..r
                    }
                } else {
                    r
                },
            ),
            ..db
        },
        Step::ConversationTouch(e) => Tables {
            conversations: db.conversations.insert(e.conversation_id, touched(db, e)),
            ..db
        },
        Step::Event(r) => Tables {
            events: db.events.insert(
                r.event_id,
                if db.events.contains_key(r.event_id) {
                    EventView { created_at: db.events[r.event_id].created_at, ..r }
                } else {
                    r
                },
            ),
            ..db
        },
        Step::Run(r) => Tables {
            runs: db.runs.insert(
                r.run_id,
                if db.runs.contains_key(r.run_id) {
                    ExtractionView { started_at: db.runs[r.run_id].started_at, ..r }
                } else {
                    r
                },
            ),
            ..db
        },
        Step::Claim(r) => Tables {
            claims: db.claims.insert(
                r.claim_id,
                if db.claims.contains_key(r.claim_id) {
                    ClaimView { created_at: db.claims[r.claim_id].created_at, ..r }
                } else {
                    r
                },
            ),
            ..db
        },
        Step::ClaimEntity(r) => Tables {
            claim_entities: db.claim_entities.insert((r.claim_id, r.entity_id, r.role), r),
            ..db
        },
        Step::ClaimEvidence(r) => Tables {
            claim_evidence: db.claim_evidence.insert(
                r.evidence_id,
                if db.claim_evidence.contains_key(r.evidence_id) {
                    ClaimEvidenceView { created_at: db.claim_evidence[r.evidence_id].created_at, ..r }
                } else {
                    r
                },
            ),
            ..db
        },
        Step::Relationship(r) => Tables {
            relationships: db.relationships.insert(
                r.relationship_id,
                if db.relationships.contains_key(r.relationship_id) {
                    RelationshipView {
                        created_at: db.relationships[r.relationship_id].created_at,
                        ..r
                    }
                } else {
                    r
                },
            ),
            ..db
        },
        Step::RelationshipEvidence(r) => Tables {
            relationship_evidence: db.relationship_evidence.insert(
                r.evidence_id,
                if db.relationship_evidence.contains_key(r.evidence_id) {
                    RelationshipEvidenceView {
                        created_at: db.relationship_evidence[r.evidence_id].created_at,
                        ..r
                    }
                } else {
                    r
                },
            ),
            ..db
        },
        _ => db,
    }
}

/// The tables after one step.
pub open spec fn applied(db: Tables, step: Step) -> Tables {
    match step {
        Step::Memory(m) => Tables {
            memories: db.memories.insert(m.id, stored_row(db, m)),
            ..db
        },
        Step::VectorClear(id) => Tables { vectors: db.vectors.remove(id), ..db },
        Step::Vector(id, v) => Tables { vectors: db.vectors.insert(id, v), ..db },
        Step::VectorsClear => Tables { vectors: Map::empty(), ..db },
        Step::TagsClear(id) => Tables {
            tags: db.tags.filter(|p: (MemoryId, Seq<char>)| p.0 != id),
            ..db
        },
        Step::Tag(id, t) => Tables { tags: db.tags.insert((id, t)), ..db },
        Step::MemoryClear(id) => without_memory(db, id),
        Step::Edge(e) => Tables { edges: db.edges.push(e), ..db },
        Step::EdgesClear(id) => Tables {
            edges: db.edges.filter(|e: EdgeView| !at_edge(e, id)),
            ..db
        },
        Step::MemoryEntitiesClear(id) => Tables {
            memory_entities: kept(db.memory_entities, |l: LinkColumns| l.memory_id != id),
            ..db
        },
        Step::Record(op) => Tables { operations: db.operations.push(op), ..db },
        Step::Trace(row, config) => Tables {
            traces: db.traces.insert(row.trace_id, (row, config)),
            ..db
        },
        Step::TraceHit(row) => Tables {
            trace_hits: db.trace_hits.insert((row.trace_id, row.rank), row),
            ..db
        },
        Step::TraceHitsClear(id) => Tables {
            trace_hits: kept(db.trace_hits, |h: TraceHitColumns| h.trace_id != id),
            ..db
        },
        Step::TraceClear(id) => Tables {
            traces: db.traces.remove(id),
            trace_hits: kept(db.trace_hits, |h: TraceHitColumns| h.trace_id != id),
            ..db
        },
        _ => with_record(db, step),
    }
}

/// The tables after a sequence of steps.
pub open spec fn applied_all(db: Tables, steps: Seq<Step>) -> Tables
    decreases steps.len(),
{
    if steps.len() == 0 {
        db
    } else {
        applied(applied_all(db, steps.drop_last()), steps.last())
    }
}

pub proof fn lemma_applied_concat(db: Tables, a: Seq<Step>, b: Seq<Step>)
    ensures
        applied_all(db, a + b) == applied_all(applied_all(db, a), b),
    decreases b.len(),
{
    if b.len() == 0 {
        assert(a + b =~= a);
    } else {
        lemma_applied_concat(db, a, b.drop_last());
        assert((a + b).drop_last() =~= a + b.drop_last());
    }
}

pub proof fn lemma_applied_one(db: Tables, step: Step)
    ensures
        applied_all(db, seq![step]) == applied(db, step),
{
    assert(seq![step].drop_last() =~= Seq::empty());
    assert(applied_all(db, seq![step].drop_last()) == db);
}

pub proof fn lemma_applied_two(db: Tables, a: Step, b: Step)
    ensures
        applied_all(db, seq![a, b]) == applied(applied(db, a), b),
{
    lemma_applied_one(db, a);
    assert(seq![a, b].drop_last() =~= seq![a]);
}

/// The audit records among the steps.
pub open spec fn recorded(steps: Seq<Step>) -> Seq<OperationView>
    decreases steps.len(),
{
    if steps.len() == 0 {
        Seq::empty()
    } else {
        let rest = recorded(steps.drop_last());
        match steps.last() {
            Step::Record(op) => rest.push(op),
            _ => rest,
        }
    }
}

/// The audit trail only grows: whatever the steps, it is followed by the
/// records among them, in their order.
pub proof fn law_audit_only_grows(db: Tables, steps: Seq<Step>)
    ensures
        applied_all(db, steps).operations == db.operations + recorded(steps),
    decreases steps.len(),
{
    if steps.len() == 0 {
        assert(db.operations + recorded(steps) =~= db.operations);
    } else {
        law_audit_only_grows(db, steps.drop_last());
        assert(applied_all(db, steps).operations =~= db.operations + recorded(steps));
    }
}

proof fn lemma_tag_steps(db: Tables, id: MemoryId, tags: Seq<Seq<char>>)
    ensures
        ({
            let after = applied_all(db, tag_steps(id, tags));
            &&& after == (Tables { tags: after.tags, ..db })
            &&& forall|p: (MemoryId, Seq<char>)| #[trigger]
                after.tags.contains(p) <==> db.tags.contains(p) || (p.0 == id && tags.contains(
                    p.1,
                ))
        }),
    decreases tags.len(),
{
    let steps = tag_steps(id, tags);
    if tags.len() > 0 {
        let head = tags.drop_last();
        assert(steps.drop_last() =~= tag_steps(id, head));
        lemma_tag_steps(db, id, head);
        let before = applied_all(db, tag_steps(id, head));
        let after = applied_all(db, steps);
        assert(after == applied(before, Step::Tag(id, tags.last())));
        assert forall|p: (MemoryId, Seq<char>)| #[trigger]
            after.tags.contains(p) <==> db.tags.contains(p) || (p.0 == id && tags.contains(
                p.1,
            )) by {
            if tags.contains(p.1) {
                let k = choose|k: int| 0 <= k < tags.len() && tags[k] == p.1;
                if k < head.len() {
                    assert(head[k] == p.1);
                }
            }
            if head.contains(p.1) {
                let k = choose|k: int| 0 <= k < head.len() && head[k] == p.1;
                assert(tags[k] == p.1);
            }
            if p.1 == tags.last() {
                assert(tags[tags.len() - 1] == p.1);
            }
        }
    }
}

/// The tables after a memory was stored.
pub open spec fn after_store(db: Tables, m: MemoryView, dim: usize) -> Tables {
    applied_all(db, store_steps(m, dim))
}

pub proof fn lemma_store(db: Tables, m: MemoryView, dim: usize)
    ensures
        ({
            let after = after_store(db, m, dim);
            &&& after == (Tables {
                memories: db.memories.insert(m.id, stored_row(db, m)),
                tags: after.tags,
                vectors: if dim > 0 && m.embedding.len() > 0 {
                    db.vectors.insert(m.id, m.embedding)
                } else {
                    db.vectors.remove(m.id)
                },
                operations: db.operations.push(memory_upsert_record(m)),
                ..db
            })
            &&& forall|p: (MemoryId, Seq<char>)| #[trigger]
                after.tags.contains(p) <==> if p.0 == m.id {
                    m.tags.contains(p.1)
                } else {
                    db.tags.contains(p)
                }
        }),
{
    let s1 = seq![Step::Memory(m), Step::VectorClear(m.id)];
    let s2 = vector_steps(m, dim);
    let s3 = seq![Step::TagsClear(m.id)];
    let s4 = tag_steps(m.id, m.tags);
    let s5 = seq![Step::Record(memory_upsert_record(m))];
    let d1 = applied_all(db, s1);
    lemma_applied_two(db, Step::Memory(m), Step::VectorClear(m.id));
    let d2 = applied_all(d1, s2);
    if dim > 0 && m.embedding.len() > 0 {
        lemma_applied_one(d1, Step::Vector(m.id, m.embedding));
        assert(d2.vectors =~= db.vectors.insert(m.id, m.embedding));
    }
    let d3 = applied_all(d2, s3);
    lemma_applied_one(d2, Step::TagsClear(m.id));
    let d4 = applied_all(d3, s4);
    lemma_tag_steps(d3, m.id, m.tags);
    lemma_applied_one(d4, Step::Record(memory_upsert_record(m)));
    lemma_applied_concat(db, s1, s2);
    lemma_applied_concat(db, s1 + s2, s3);
    lemma_applied_concat(db, s1 + s2 + s3, s4);
    lemma_applied_concat(db, s1 + s2 + s3 + s4, s5);
    let after = after_store(db, m, dim);
    assert(after == applied_all(d4, s5));
}

/// What was stored is there: the row with the fields of the memory (a row that
/// was there before keeps the time of its creation), exactly its tags, and its
/// vector where there is an index and an embedding.
pub proof fn law_store_then_read(db: Tables, m: MemoryView, dim: usize)
    ensures
        ({
            let after = after_store(db, m, dim);
            &&& after.memories.contains_key(m.id)
            &&& after.memories[m.id] == stored_row(db, m)
            &&& forall|t: Seq<char>| #[trigger]
                after.tags.contains((m.id, t)) <==> m.tags.contains(t)
            &&& after.vectors.contains_key(m.id) <==> dim > 0 && m.embedding.len() > 0
            &&& after.vectors.contains_key(m.id) ==> after.vectors[m.id] == m.embedding
        }),
{
    lemma_store(db, m, dim);
}

/// Storing a memory changes nothing of the others, nor the edges; it adds one
/// audit record.
pub proof fn law_store_leaves_others(db: Tables, m: MemoryView, dim: usize, other: MemoryId)
    requires
        other != m.id,
    ensures
        ({
            let after = after_store(db, m, dim);
            &&& after.memories.contains_key(other) <==> db.memories.contains_key(other)
            &&& after.memories[other] == db.memories[other]
            &&& forall|t: Seq<char>| #[trigger]
                after.tags.contains((other, t)) <==> db.tags.contains((other, t))
            &&& after.vectors.contains_key(other) <==> db.vectors.contains_key(other)
            &&& after.vectors[other] == db.vectors[other]
            &&& after.edges == db.edges
            &&& after.operations == db.operations.push(memory_upsert_record(m))
        }),
{
    lemma_store(db, m, dim);
}

/// Storing a memory under an identity that is taken keeps one row for it: the
/// later fields, with the time of the first creation.
pub proof fn law_store_upserts(db: Tables, first: MemoryView, second: MemoryView, dim: usize)
    requires
        first.id == second.id,
        !db.memories.contains_key(first.id),
    ensures
        ({
            let after = after_store(after_store(db, first, dim), second, dim);
            &&& after.memories.dom() == db.memories.dom().insert(first.id)
            &&& after.memories[first.id] == (MemoryView {
                created_at: first.created_at,
                tags: Seq::empty(),
                ..second
            })
        }),
{
    lemma_store(db, first, dim);
    let mid = after_store(db, first, dim);
    lemma_store(mid, second, dim);
    let after = after_store(mid, second, dim);
    assert(after.memories.dom() =~= db.memories.dom().insert(first.id));
}

/// The tables after a memory was deleted.
pub open spec fn after_delete(db: Tables, id: MemoryId) -> Tables {
    applied_all(db, delete_steps(id))
}

pub proof fn lemma_delete(db: Tables, id: MemoryId)
    ensures
        ({
            let after = after_delete(db, id);
            after == (Tables {
                vectors: db.vectors.remove(id),
                tags: db.tags.filter(|p: (MemoryId, Seq<char>)| p.0 != id),
                edges: db.edges.filter(|e: EdgeView| !at_edge(e, id)),
                ..without_memory(db, id)
            })
        }),
{
    let a = Step::VectorClear(id);
    let b = Step::TagsClear(id);
    let c = Step::EdgesClear(id);
    let d = Step::MemoryClear(id);
    lemma_applied_two(db, a, b);
    let mid = applied_all(db, seq![a, b]);
    lemma_applied_two(mid, c, d);
    assert(delete_steps(id) =~= seq![a, b] + seq![c, d]);
    lemma_applied_concat(db, seq![a, b], seq![c, d]);
}

/// After a deletion nothing of the memory is left: no row, no vector, no tag,
/// and no edge at either end.
pub proof fn law_delete_removes(db: Tables, id: MemoryId)
    ensures
        ({
            let after = after_delete(db, id);
            &&& !after.memories.contains_key(id)
            &&& !after.vectors.contains_key(id)
            &&& forall|t: Seq<char>| !#[trigger] after.tags.contains((id, t))
            &&& forall|i: int|
                0 <= i < after.edges.len() ==> !at_edge(#[trigger] after.edges[i], id)
        }),
{
    lemma_delete(db, id);
    let after = after_delete(db, id);
    let keep = |e: EdgeView| !at_edge(e, id);
    assert forall|i: int| 0 <= i < after.edges.len() implies !at_edge(
        #[trigger] after.edges[i],
        id,
    ) by {
        db.edges.lemma_filter_pred(keep, i);
    }
}

/// A deletion changes nothing of the other memories, and keeps every edge
/// between them.
pub proof fn law_delete_leaves_others(db: Tables, id: MemoryId, other: MemoryId)
    requires
        other != id,
    ensures
        ({
            let after = after_delete(db, id);
            &&& after.memories.contains_key(other) <==> db.memories.contains_key(other)
            &&& after.memories[other] == db.memories[other]
            &&& after.vectors.contains_key(other) <==> db.vectors.contains_key(other)
            &&& after.vectors[other] == db.vectors[other]
            &&& forall|t: Seq<char>| #[trigger]
                after.tags.contains((other, t)) <==> db.tags.contains((other, t))
            &&& forall|e: EdgeView|
                !at_edge(e, id) ==> (#[trigger] after.edges.contains(e) <==> db.edges.contains(e))
        }),
{
    lemma_delete(db, id);
    let after = after_delete(db, id);
    let keep = |e: EdgeView| !at_edge(e, id);
    assert forall|e: EdgeView| !at_edge(e, id) implies (#[trigger] after.edges.contains(e)
        <==> db.edges.contains(e)) by {
        if db.edges.contains(e) {
            let i = choose|i: int| 0 <= i < db.edges.len() && db.edges[i] == e;
            db.edges.lemma_filter_contains(keep, i);
        }
        if after.edges.contains(e) {
            db.edges.lemma_filter_contains_rev(keep, e);
        }
    }
}

/// Edges are added beside those that are there, even equal ones; nothing else
/// changes but the audit trail.
pub proof fn law_edge_is_added(db: Tables, e: EdgeView)
    ensures
        applied_all(db, edge_steps(e)) == (Tables {
            edges: db.edges.push(e),
            operations: db.operations.push(crate::audit::edge_insert_record(e)),
            ..db
        }),
{
    lemma_applied_two(db, Step::Edge(e), Step::Record(crate::audit::edge_insert_record(e)));
}

pub proof fn lemma_batch_prefix(nodes: Seq<MemoryView>, dim: usize, n: int)
    requires
        0 <= n < nodes.len(),
        first_conflict(nodes, dim) is None,
    ensures
        !dimension_conflict(dim, nodes[n].embedding.len()),
    decreases nodes.len(),
{
    if n < nodes.len() - 1 {
        lemma_batch_prefix(nodes.drop_last(), dim, n);
    }
}

/// A batch is planned only if every embedding in it fits the index, and then
/// every memory of it is there in the end.
pub proof fn law_batch_all_or_nothing(db: Tables, nodes: Seq<MemoryView>, dim: usize, n: int)
    requires
        first_conflict(nodes, dim) is None,
        0 <= n < nodes.len(),
    ensures
        !dimension_conflict(dim, nodes[n].embedding.len()),
        applied_all(db, batch_steps(nodes, dim)).memories.contains_key(nodes[n].id),
    decreases nodes.len(),
{
    lemma_batch_prefix(nodes, dim, n);
    let head = nodes.drop_last();
    let mid = applied_all(db, batch_steps(head, dim));
    lemma_applied_concat(db, batch_steps(head, dim), store_steps(nodes.last(), dim));
    lemma_store(mid, nodes.last(), dim);
    if n < nodes.len() - 1 {
        law_batch_all_or_nothing(db, head, dim, n);
    }
}

} // verus!
