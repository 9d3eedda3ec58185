//! Logical writes as sequences of steps.
//!
//! A write is planned before anything is touched: the plan is the list of
//! steps that one transaction performs, in order. Whoever owns the database
//! performs them all or none.
use crate::audit::{
    alias_upsert_operation, alias_upsert_record, artifacts_persist_operation,
    artifacts_persist_record, claim_entity_upsert_operation, claim_entity_upsert_record,
    claim_evidence_upsert_operation, claim_evidence_upsert_record, claim_upsert_operation,
    claim_upsert_record, conversation_upsert_operation, conversation_upsert_record,
    edge_insert_operation, edge_insert_record, edges_delete_operation, edges_delete_record,
    entity_upsert_operation, entity_upsert_record, event_upsert_operation, event_upsert_record,
    index_rebuild_operation, index_rebuild_record,
    links_replace_operation, links_replace_record, memory_delete_operation, memory_delete_record,
    memory_entity_upsert_operation, memory_entity_upsert_record, memory_upsert_operation,
    memory_upsert_record, payload_view, relationship_evidence_upsert_operation,
    relationship_evidence_upsert_record, relationship_upsert_operation, relationship_upsert_record,
    run_upsert_operation, run_upsert_record, source_upsert_operation, source_upsert_record,
    Operation, OperationView, PayloadField,
};
use crate::clock::now_us;
use crate::codec::{
    check_dimension, dimension_conflict, index_changes, needs_index, signed_bits, time_to_column,
};
use crate::extraction_jobs::ValidatedExtractionBatch;
use crate::float::Single;
use crate::ids::{fresh_text, id_text, is_fresh_text, opt_id_text, uuid_text};
use crate::memory::{
    EdgeView, ErrorView, MemoryEdge, MemoryId, MemoryNode, MemoryView, MenteError, Timestamp,
};
use crate::order::views_of;
use crate::records::{
    AliasColumns, ClaimEntityLink, ClaimEntityView, ClaimEvidence, ClaimEvidenceView, ClaimRecord,
    ClaimView, ConversationEvent, ConversationRecord, ConversationView, EntityAlias, EntityColumns,
    EntityRecord, EntityRelationship, EventView, ExtractionRun, ExtractionView, LinkColumns,
    MemoryEntityLink, MemorySource, RelationshipEvidence, RelationshipEvidenceView,
    RelationshipView, SourceView,
};
use crate::search::RetrievalConfig;
use crate::text::{copy_text, opt_view, views};
use crate::traces::{TraceColumns, TraceHitColumns, TraceHitRow, TraceRow};
use vstd::prelude::*;

verus! {

/// The embedding of a memory as it is stored.
#[derive(Debug)]
pub struct StoredEmbedding {
    pub id: MemoryId,
    pub embedding: Vec<Single>,
}

impl View for StoredEmbedding {
    type V = (MemoryId, Seq<Single>);

    open spec fn view(&self) -> (MemoryId, Seq<Single>) {
        (self.id, self.embedding@)
    }
}

/// One step of a transaction.
#[derive(Debug)]
pub enum Write<'a> {
    /// Write the row of a memory; a row with the same identity keeps the time
    /// of its creation.
    Memory(&'a MemoryNode),
    /// Drop the vector of a memory, if any.
    VectorClear(MemoryId),
    /// Write the normalized vector of a memory.
    Vector(&'a MemoryNode),
    /// Drop all vectors, and the index with them; a new index is made.
    VectorsClear,
    /// Write the normalized vector of a stored embedding.
    StoredVector(&'a StoredEmbedding),
    /// Drop the tags of a memory.
    TagsClear(MemoryId),
    /// Write a tag of a memory, once.
    Tag(MemoryId, &'a String),
    /// Drop the row of a memory.
    MemoryClear(MemoryId),
    /// Add an edge.
    Edge(&'a MemoryEdge),
    /// Drop the edges that touch a memory.
    EdgesClear(MemoryId),
    Source(&'a MemorySource),
    Entity(&'a EntityRecord),
    Alias(&'a EntityAlias),
    MemoryEntity(&'a MemoryEntityLink),
    /// Drop the entity links of a memory.
    MemoryEntitiesClear(MemoryId),
    Conversation(&'a ConversationRecord),
    /// Create the conversation of an event where it is missing, and move the
    /// time of its last change forward to the event.
    ConversationTouch(&'a ConversationEvent),
    Event(&'a ConversationEvent),
    Run(&'a ExtractionRun),
    Claim(&'a ClaimRecord),
    ClaimEntity(&'a ClaimEntityLink),
    ClaimEvidence(&'a ClaimEvidence),
    Relationship(&'a EntityRelationship),
    RelationshipEvidence(&'a RelationshipEvidence),
    /// Append an audit record.
    Record(Operation),
    /// Write the header of a trace, with the tuning of its search.
    Trace(&'a TraceRow, &'a RetrievalConfig),
    TraceHit(&'a TraceHitRow),
    /// Drop the hits of a trace.
    TraceHitsClear(&'a String),
    /// Drop a trace.
    TraceClear(&'a String),
}

/// The mathematical form of a step.
pub enum Step {
    Memory(MemoryView),
    VectorClear(MemoryId),
    Vector(MemoryId, Seq<Single>),
    VectorsClear,
    TagsClear(MemoryId),
    Tag(MemoryId, Seq<char>),
    MemoryClear(MemoryId),
    Edge(EdgeView),
    EdgesClear(MemoryId),
    Source(SourceView),
    Entity(EntityColumns),
    Alias(AliasColumns),
    MemoryEntity(LinkColumns),
    MemoryEntitiesClear(MemoryId),
    Conversation(ConversationView),
    ConversationTouch(EventView),
    Event(EventView),
    Run(ExtractionView),
    Claim(ClaimView),
    ClaimEntity(ClaimEntityView),
    ClaimEvidence(ClaimEvidenceView),
    Relationship(RelationshipView),
    RelationshipEvidence(RelationshipEvidenceView),
    Record(OperationView),
    Trace(TraceColumns, RetrievalConfig),
    TraceHit(TraceHitColumns),
    TraceHitsClear(Seq<char>),
    TraceClear(Seq<char>),
}

impl<'a> View for Write<'a> {
    type V = Step;

    open spec fn view(&self) -> Step {
        match *self {
            Write::Memory(m) => Step::Memory(m@),
            Write::VectorClear(id) => Step::VectorClear(id),
            Write::Vector(m) => Step::Vector(m.id, m.embedding@),
            Write::VectorsClear => Step::VectorsClear,
            Write::StoredVector(e) => Step::Vector(e.id, e.embedding@),
            Write::TagsClear(id) => Step::TagsClear(id),
            Write::Tag(id, t) => Step::Tag(id, t@),
            Write::MemoryClear(id) => Step::MemoryClear(id),
            Write::Edge(e) => Step::Edge(e@),
            Write::EdgesClear(id) => Step::EdgesClear(id),
            Write::Source(r) => Step::Source(r@),
            Write::Entity(r) => Step::Entity(r@),
            Write::Alias(r) => Step::Alias(r@),
            Write::MemoryEntity(r) => Step::MemoryEntity(r@),
            Write::MemoryEntitiesClear(id) => Step::MemoryEntitiesClear(id),
            Write::Conversation(r) => Step::Conversation(r@),
            Write::ConversationTouch(r) => Step::ConversationTouch(r@),
            Write::Event(r) => Step::Event(r@),
            Write::Run(r) => Step::Run(r@),
            Write::Claim(r) => Step::Claim(r@),
            Write::ClaimEntity(r) => Step::ClaimEntity(r@),
            Write::ClaimEvidence(r) => Step::ClaimEvidence(r@),
            Write::Relationship(r) => Step::Relationship(r@),
            Write::RelationshipEvidence(r) => Step::RelationshipEvidence(r@),
            Write::Record(op) => Step::Record(op@),
            Write::Trace(row, config) => Step::Trace(row@, *config),
            Write::TraceHit(row) => Step::TraceHit(row@),
            Write::TraceHitsClear(id) => Step::TraceHitsClear(id@),
            Write::TraceClear(id) => Step::TraceClear(id@),
        }
    }
}

/// The steps of a plan.
pub open spec fn steps_of<'a>(plan: Seq<Write<'a>>) -> Seq<Step> {
    plan.map_values(|w: Write<'a>| w@)
}

fn push_step<'a>(plan: &mut Vec<Write<'a>>, w: Write<'a>)
    ensures
        steps_of(final(plan)@) == steps_of(old(plan)@).push(w@),
{
    let ghost before = plan@;
    plan.push(w);
    assert(steps_of(plan@) =~= steps_of(before).push(w@));
}

// ---------------------------------------------------------------------------
// Audit rows
// ---------------------------------------------------------------------------
/// The row of an audit record.
#[derive(Debug)]
pub struct OperationRow {
    pub operation_id: String,
    pub operation_type: &'static str,
    pub memory_id: Option<String>,
    pub source: Option<String>,
    pub target: Option<String>,
    pub payload: Vec<PayloadField>,
    pub created_at: i64,
}

pub(crate) fn opt_id_string(id: Option<MemoryId>) -> (res: Option<String>)
    ensures
        opt_view(res) == opt_id_text(id),
{
    match id {
        Some(i) => Some(id_text(&i)),
        None => None,
    }
}

/// The row of an audit record with a given identity and time.
pub fn operation_row(op: Operation, operation_id: String, now: Timestamp) -> (res: OperationRow)
    ensures
        res.operation_id@ == operation_id@,
        res.operation_type@ == op@.operation_type,
        opt_view(res.memory_id) == opt_id_text(op@.memory_id),
        opt_view(res.source) == opt_id_text(op@.source),
        opt_view(res.target) == opt_id_text(op@.target),
        payload_view(res.payload@) == op@.payload,
        res.created_at == signed_bits(now),
{
    OperationRow {
        operation_id,
        operation_type: op.operation_type,
        memory_id: opt_id_string(op.memory_id),
        source: opt_id_string(op.source),
        target: opt_id_string(op.target),
        payload: op.payload,
        created_at: time_to_column(now),
    }
}

/// The row of an audit record that is written now, under a fresh identity.
pub fn record_operation(op: Operation) -> (res: OperationRow)
    ensures
        is_fresh_text(res.operation_id@),
        res.operation_type@ == op@.operation_type,
        opt_view(res.memory_id) == opt_id_text(op@.memory_id),
        opt_view(res.source) == opt_id_text(op@.source),
        opt_view(res.target) == opt_id_text(op@.target),
        payload_view(res.payload@) == op@.payload,
{
    operation_row(op, fresh_text(), now_us())
}

// ---------------------------------------------------------------------------
// Memories
// ---------------------------------------------------------------------------
/// The steps that write the tags of a memory.
pub open spec fn tag_steps(id: MemoryId, tags: Seq<Seq<char>>) -> Seq<Step> {
    tags.map_values(|t: Seq<char>| Step::Tag(id, t))
}

/// The step that writes the vector of a memory, where there is an index and an
/// embedding.
pub open spec fn vector_steps(m: MemoryView, dim: usize) -> Seq<Step> {
    if dim > 0 && m.embedding.len() > 0 {
        seq![Step::Vector(m.id, m.embedding)]
    } else {
        Seq::empty()
    }
}

/// The steps that store a memory: its row, its vector, its tags, and the audit
/// record.
pub open spec fn store_steps(m: MemoryView, dim: usize) -> Seq<Step> {
    seq![Step::Memory(m), Step::VectorClear(m.id)] + vector_steps(m, dim) + seq![
        Step::TagsClear(m.id),
    ] + tag_steps(m.id, m.tags) + seq![Step::Record(memory_upsert_record(m))]
}

/// Plans the storing of a memory.
pub fn store_memory_on<'a>(node: &'a MemoryNode, dim: usize, plan: &mut Vec<Write<'a>>)
    ensures
        steps_of(final(plan)@) == steps_of(old(plan)@) + store_steps(node@, dim),
{
    let ghost start = steps_of(plan@);
    push_step(plan, Write::Memory(node));
    push_step(plan, Write::VectorClear(node.id));
    if dim > 0 && node.embedding.len() > 0 {
        push_step(plan, Write::Vector(node));
    }
    push_step(plan, Write::TagsClear(node.id));
    let ghost before_tags = steps_of(plan@);
    let ghost tags = views(node.tags@);
    proof {
        assert(before_tags =~= start + (seq![Step::Memory(node@), Step::VectorClear(node.id)]
            + vector_steps(node@, dim) + seq![Step::TagsClear(node.id)]));
    }
    for i in 0..node.tags.len()
        invariant
            tags == views(node.tags@),
            steps_of(plan@) == before_tags + tag_steps(node.id, tags.take(i as int)),
    {
        push_step(plan, Write::Tag(node.id, &node.tags[i]));
        assert(steps_of(plan@) =~= before_tags + tag_steps(node.id, tags.take(i + 1)));
    }
    proof {
        assert(tags.take(tags.len() as int) =~= tags);
    }
    push_step(plan, Write::Record(memory_upsert_operation(node)));
    assert(steps_of(plan@) =~= start + store_steps(node@, dim));
}

/// Plans the storing of one memory. An embedding that does not fit the index is
/// an error.
pub fn store_memory<'a>(node: &'a MemoryNode, dim: usize) -> (res: Result<Vec<Write<'a>>, MenteError>)
    ensures
        match res {
            Ok(plan) => !dimension_conflict(dim, node.embedding@.len()) && steps_of(plan@)
                == store_steps(node@, dim),
            Err(e) => dimension_conflict(dim, node.embedding@.len()) && e@
                == (ErrorView::EmbeddingDimensionMismatch {
                got: node.embedding@.len() as usize,
                expected: dim,
            }),
        },
{
    check_dimension(dim, node.embedding.len())?;
    let mut plan: Vec<Write<'a>> = Vec::new();
    store_memory_on(node, dim, &mut plan);
    proof {
        assert(Seq::<Step>::empty() + store_steps(node@, dim) =~= store_steps(node@, dim));
        assert(steps_of(Seq::<Write<'a>>::empty()) =~= Seq::<Step>::empty());
    }
    Ok(plan)
}

/// The steps that write provenance.
pub open spec fn source_steps(source: MemorySource) -> Seq<Step> {
    seq![Step::Source(source@), Step::Record(source_upsert_record(source))]
}

/// Plans the writing of provenance.
pub fn insert_memory_source_on<'a>(source: &'a MemorySource, plan: &mut Vec<Write<'a>>)
    ensures
        steps_of(final(plan)@) == steps_of(old(plan)@) + source_steps(*source),
{
    let ghost start = steps_of(plan@);
    push_step(plan, Write::Source(source));
    push_step(plan, Write::Record(source_upsert_operation(source)));
    assert(steps_of(plan@) =~= start + source_steps(*source));
}

/// The message for provenance that belongs to another memory.
pub open spec fn source_mismatch(source: MemorySource, id: MemoryId) -> Seq<char> {
    "memory source "@ + source.source_id@ + " points at "@ + uuid_text(source.memory_id.value)
        + ", expected "@ + uuid_text(id.value)
}

/// Plans the storing of a memory with its provenance. The provenance must
/// belong to the memory, and the embedding must fit the index.
pub fn store_memory_with_source<'a>(
    node: &'a MemoryNode,
    source: &'a MemorySource,
    dim: usize,
) -> (res: Result<Vec<Write<'a>>, MenteError>)
    ensures
        match res {
            Ok(plan) => {
                &&& source.memory_id == node.id
                &&& !dimension_conflict(dim, node.embedding@.len())
                &&& steps_of(plan@) == store_steps(node@, dim) + source_steps(*source)
            },
            Err(e) => if source.memory_id != node.id {
                e@ == ErrorView::Storage(source_mismatch(*source, node.id))
            } else {
                dimension_conflict(dim, node.embedding@.len()) && e@
                    == (ErrorView::EmbeddingDimensionMismatch {
                    got: node.embedding@.len() as usize,
                    expected: dim,
                })
            },
        },
{
    if source.memory_id != node.id {
        let mut message = copy_text("memory source ");
        message.append(source.source_id.as_str());
        message.append(" points at ");
        message.append(id_text(&source.memory_id).as_str());
        message.append(", expected ");
        message.append(id_text(&node.id).as_str());
        return Err(MenteError::Storage(message));
    }
    let mut plan = store_memory(node, dim)?;
    insert_memory_source_on(source, &mut plan);
    Ok(plan)
}

/// The steps that store memories one after another.
pub open spec fn batch_steps(nodes: Seq<MemoryView>, dim: usize) -> Seq<Step>
    decreases nodes.len(),
{
    if nodes.len() == 0 {
        Seq::empty()
    } else {
        batch_steps(nodes.drop_last(), dim) + store_steps(nodes.last(), dim)
    }
}

/// The first of the embeddings that does not fit the index.
pub open spec fn first_conflict(nodes: Seq<MemoryView>, dim: usize) -> Option<nat>
    decreases nodes.len(),
{
    if nodes.len() == 0 {
        None
    } else {
        match first_conflict(nodes.drop_last(), dim) {
            Some(n) => Some(n),
            None => if dimension_conflict(dim, nodes.last().embedding.len()) {
                Some(nodes.last().embedding.len())
            } else {
                None
            },
        }
    }
}

proof fn lemma_conflict_stays(nodes: Seq<MemoryView>, dim: usize, n: int)
    requires
        0 <= n <= nodes.len(),
        first_conflict(nodes.take(n), dim) is Some,
    ensures
        first_conflict(nodes, dim) == first_conflict(nodes.take(n), dim),
    decreases nodes.len() - n,
{
    if n < nodes.len() {
        assert(nodes.take(n + 1).drop_last() =~= nodes.take(n));
        lemma_conflict_stays(nodes, dim, n + 1);
    } else {
        assert(nodes.take(n) =~= nodes);
    }
}

/// Plans the storing of many memories in one transaction. All embeddings are
/// checked before the first step is planned.
pub fn store_memory_batch<'a>(nodes: &'a Vec<MemoryNode>, dim: usize) -> (res: Result<
    Vec<Write<'a>>,
    MenteError,
>)
    ensures
        match res {
            Ok(plan) => first_conflict(views_of(nodes@), dim) is None && steps_of(plan@)
                == batch_steps(views_of(nodes@), dim),
            Err(e) => first_conflict(views_of(nodes@), dim) is Some && e@
                == (ErrorView::EmbeddingDimensionMismatch {
                got: first_conflict(views_of(nodes@), dim)->0 as usize,
                expected: dim,
            }),
        },
{
    let ghost all = views_of(nodes@);
    for i in 0..nodes.len()
        invariant
            all == views_of(nodes@),
            first_conflict(all.take(i as int), dim) is None,
    {
        proof {
            assert(all.take(i + 1).drop_last() =~= all.take(i as int));
            assert(all[i as int] == nodes@[i as int]@);
            if first_conflict(all.take(i + 1), dim) is Some {
                lemma_conflict_stays(all, dim, i + 1);
            }
        }
        check_dimension(dim, nodes[i].embedding.len())?;
    }
    let mut plan: Vec<Write<'a>> = Vec::new();
    proof {
        assert(all.take(all.len() as int) =~= all);
        assert(steps_of(plan@) =~= batch_steps(all.take(0), dim));
    }
    for i in 0..nodes.len()
        invariant
            all == views_of(nodes@),
            steps_of(plan@) == batch_steps(all.take(i as int), dim),
    {
        proof {
            assert(all.take(i + 1).drop_last() =~= all.take(i as int));
            assert(all[i as int] == nodes@[i as int]@);
        }
        store_memory_on(&nodes[i], dim, &mut plan);
    }
    Ok(plan)
}

/// The steps that delete a memory, before the audit record.
pub open spec fn delete_steps(id: MemoryId) -> Seq<Step> {
    seq![
        Step::VectorClear(id),
        Step::TagsClear(id),
        Step::EdgesClear(id),
        Step::MemoryClear(id),
    ]
}

/// Plans the deletion of a memory that exists. The audit record follows once it
/// is known what was deleted.
pub fn delete_memory<'a>(id: MemoryId) -> (res: Vec<Write<'a>>)
    ensures
        steps_of(res@) == delete_steps(id),
{
    let mut plan: Vec<Write<'a>> = Vec::new();
    push_step(&mut plan, Write::VectorClear(id));
    push_step(&mut plan, Write::TagsClear(id));
    push_step(&mut plan, Write::EdgesClear(id));
    push_step(&mut plan, Write::MemoryClear(id));
    assert(steps_of(plan@) =~= delete_steps(id));
    plan
}

/// The audit record of a deletion.
pub fn delete_memory_record<'a>(
    id: MemoryId,
    rowid: i64,
    deleted_tags: usize,
    deleted_edges: usize,
) -> (res: Write<'a>)
    ensures
        res@ == Step::Record(memory_delete_record(id, rowid, deleted_tags, deleted_edges)),
{
    Write::Record(memory_delete_operation(id, rowid, deleted_tags, deleted_edges))
}

// ---------------------------------------------------------------------------
// The vector index
// ---------------------------------------------------------------------------
/// The steps that write the vectors of the embeddings that fit an index.
pub open spec fn fitting_steps(rows: Seq<(MemoryId, Seq<Single>)>, dim: usize) -> Seq<Step>
    decreases rows.len(),
{
    if rows.len() == 0 {
        Seq::empty()
    } else {
        let rest = fitting_steps(rows.drop_last(), dim);
        if rows.last().1.len() == dim {
            rest.push(Step::Vector(rows.last().0, rows.last().1))
        } else {
            rest
        }
    }
}

/// The steps that build the index for a dimension from the stored embeddings:
/// those of another dimension are left out, and counted in the audit record.
pub open spec fn rebuild_steps(rows: Seq<(MemoryId, Seq<Single>)>, dim: usize) -> Seq<Step> {
    let fitting = fitting_steps(rows, dim);
    seq![Step::VectorsClear] + fitting + seq![
        Step::Record(
            index_rebuild_record(
                dim,
                fitting.len() as usize,
                (rows.len() - fitting.len()) as usize,
            ),
        ),
    ]
}

/// Plans the building of the vector index for a dimension, nothing where there
/// is no dimension or the index has it already.
pub fn ensure_vector_index<'a>(
    current: usize,
    rows: &'a Vec<StoredEmbedding>,
    dim: usize,
) -> (res: Option<Vec<Write<'a>>>)
    ensures
        match res {
            Some(plan) => index_changes(current, dim) && steps_of(plan@) == rebuild_steps(
                views_of(rows@),
                dim,
            ),
            None => !index_changes(current, dim),
        },
{
    if !needs_index(current, dim) {
        return None;
    }
    let ghost all = views_of(rows@);
    let mut plan: Vec<Write<'a>> = Vec::new();
    push_step(&mut plan, Write::VectorsClear);
    let mut fitting: usize = 0;
    proof {
        assert(steps_of(plan@) =~= seq![Step::VectorsClear] + fitting_steps(all.take(0), dim));
    }
    for i in 0..rows.len()
        invariant
            all == views_of(rows@),
            fitting <= i,
            fitting == fitting_steps(all.take(i as int), dim).len(),
            steps_of(plan@) == seq![Step::VectorsClear] + fitting_steps(all.take(i as int), dim),
    {
        proof {
            assert(all.take(i + 1).drop_last() =~= all.take(i as int));
            assert(all.take(i + 1).last() == rows@[i as int]@);
        }
        if rows[i].embedding.len() == dim {
            push_step(&mut plan, Write::StoredVector(&rows[i]));
            fitting = fitting + 1;
        }
        assert(steps_of(plan@) =~= seq![Step::VectorsClear] + fitting_steps(
            all.take(i + 1),
            dim,
        ));
    }
    proof {
        assert(all.take(rows.len() as int) =~= all);
    }
    push_step(
        &mut plan,
        Write::Record(index_rebuild_operation(dim, fitting, rows.len() - fitting)),
    );
    assert(steps_of(plan@) =~= rebuild_steps(all, dim));
    Some(plan)
}

// ---------------------------------------------------------------------------
// Edges
// ---------------------------------------------------------------------------
/// The steps that add an edge.
pub open spec fn edge_steps(e: EdgeView) -> Seq<Step> {
    seq![Step::Edge(e), Step::Record(edge_insert_record(e))]
}

/// Plans the adding of an edge. Equal edges may stand beside each other.
pub fn add_edge<'a>(edge: &'a MemoryEdge) -> (res: Vec<Write<'a>>)
    ensures
        steps_of(res@) == edge_steps(edge@),
{
    let mut plan: Vec<Write<'a>> = Vec::new();
    push_step(&mut plan, Write::Edge(edge));
    push_step(&mut plan, Write::Record(edge_insert_operation(edge)));
    assert(steps_of(plan@) =~= edge_steps(edge@));
    plan
}

/// Plans the deletion of the edges that touch a memory. The audit record
/// follows once it is known how many there were.
pub fn delete_edges_for<'a>(id: MemoryId) -> (res: Vec<Write<'a>>)
    ensures
        steps_of(res@) == seq![Step::EdgesClear(id)],
{
    let mut plan: Vec<Write<'a>> = Vec::new();
    push_step(&mut plan, Write::EdgesClear(id));
    assert(steps_of(plan@) =~= seq![Step::EdgesClear(id)]);
    plan
}

/// The audit record of a deletion of edges.
pub fn delete_edges_record<'a>(id: MemoryId, deleted: usize) -> (res: Write<'a>)
    ensures
        res@ == Step::Record(edges_delete_record(id, deleted)),
{
    Write::Record(edges_delete_operation(id, deleted))
}

// ---------------------------------------------------------------------------
// Records
// ---------------------------------------------------------------------------

/// The steps that write an entity.
pub open spec fn entity_steps(entity: EntityRecord) -> Seq<Step> {
    seq![Step::Entity(entity@), Step::Record(entity_upsert_record(entity))]
}

/// Plans the writing of an entity.
pub fn upsert_entity_on<'a>(entity: &'a EntityRecord, plan: &mut Vec<Write<'a>>)
    ensures
        steps_of(final(plan)@) == steps_of(old(plan)@) + entity_steps(*entity),
{
    let ghost start = steps_of(plan@);
    push_step(plan, Write::Entity(entity));
    push_step(plan, Write::Record(entity_upsert_operation(entity)));
    assert(steps_of(plan@) =~= start + entity_steps(*entity));
}

/// The steps that write an alias.
pub open spec fn alias_steps(alias: EntityAlias) -> Seq<Step> {
    seq![Step::Alias(alias@), Step::Record(alias_upsert_record(alias))]
}

/// Plans the writing of an alias.
pub fn add_entity_alias_on<'a>(alias: &'a EntityAlias, plan: &mut Vec<Write<'a>>)
    ensures
        steps_of(final(plan)@) == steps_of(old(plan)@) + alias_steps(*alias),
{
    let ghost start = steps_of(plan@);
    push_step(plan, Write::Alias(alias));
    push_step(plan, Write::Record(alias_upsert_operation(alias)));
    assert(steps_of(plan@) =~= start + alias_steps(*alias));
}

/// The steps that write the link of a memory to an entity.
pub open spec fn memory_entity_steps(link: MemoryEntityLink) -> Seq<Step> {
    seq![Step::MemoryEntity(link@), Step::Record(memory_entity_upsert_record(link))]
}

/// Plans the writing of the link of a memory to an entity.
pub fn link_memory_entity_on<'a>(link: &'a MemoryEntityLink, plan: &mut Vec<Write<'a>>)
    ensures
        steps_of(final(plan)@) == steps_of(old(plan)@) + memory_entity_steps(*link),
{
    let ghost start = steps_of(plan@);
    push_step(plan, Write::MemoryEntity(link));
    push_step(plan, Write::Record(memory_entity_upsert_operation(link)));
    assert(steps_of(plan@) =~= start + memory_entity_steps(*link));
}

/// The steps that write a conversation.
pub open spec fn conversation_steps(conversation: ConversationRecord) -> Seq<Step> {
    seq![Step::Conversation(conversation@), Step::Record(conversation_upsert_record(conversation))]
}

/// Plans the writing of a conversation.
pub fn upsert_conversation_on<'a>(conversation: &'a ConversationRecord, plan: &mut Vec<Write<'a>>)
    ensures
        steps_of(final(plan)@) == steps_of(old(plan)@) + conversation_steps(*conversation),
{
    let ghost start = steps_of(plan@);
    push_step(plan, Write::Conversation(conversation));
    push_step(plan, Write::Record(conversation_upsert_operation(conversation)));
    assert(steps_of(plan@) =~= start + conversation_steps(*conversation));
}

/// The steps that write an event.
pub open spec fn event_steps(event: ConversationEvent) -> Seq<Step> {
    seq![Step::Event(event@), Step::Record(event_upsert_record(event))]
}

/// Plans the writing of an event.
pub fn insert_conversation_event_on<'a>(event: &'a ConversationEvent, plan: &mut Vec<Write<'a>>)
    ensures
        steps_of(final(plan)@) == steps_of(old(plan)@) + event_steps(*event),
{
    let ghost start = steps_of(plan@);
    push_step(plan, Write::Event(event));
    push_step(plan, Write::Record(event_upsert_operation(event)));
    assert(steps_of(plan@) =~= start + event_steps(*event));
}

/// The steps that write an extraction run.
pub open spec fn run_steps(run: ExtractionRun) -> Seq<Step> {
    seq![Step::Run(run@), Step::Record(run_upsert_record(run))]
}

/// Plans the writing of an extraction run.
pub fn upsert_extraction_run_on<'a>(run: &'a ExtractionRun, plan: &mut Vec<Write<'a>>)
    ensures
        steps_of(final(plan)@) == steps_of(old(plan)@) + run_steps(*run),
{
    let ghost start = steps_of(plan@);
    push_step(plan, Write::Run(run));
    push_step(plan, Write::Record(run_upsert_operation(run)));
    assert(steps_of(plan@) =~= start + run_steps(*run));
}

/// The steps that write a claim.
pub open spec fn claim_steps(claim: ClaimRecord) -> Seq<Step> {
    seq![Step::Claim(claim@), Step::Record(claim_upsert_record(claim))]
}

/// Plans the writing of a claim.
pub fn upsert_claim_on<'a>(claim: &'a ClaimRecord, plan: &mut Vec<Write<'a>>)
    ensures
        steps_of(final(plan)@) == steps_of(old(plan)@) + claim_steps(*claim),
{
    let ghost start = steps_of(plan@);
    push_step(plan, Write::Claim(claim));
    push_step(plan, Write::Record(claim_upsert_operation(claim)));
    assert(steps_of(plan@) =~= start + claim_steps(*claim));
}

/// The steps that write the link of a claim to an entity.
pub open spec fn claim_entity_steps(link: ClaimEntityLink) -> Seq<Step> {
    seq![Step::ClaimEntity(link@), Step::Record(claim_entity_upsert_record(link))]
}

/// Plans the writing of the link of a claim to an entity.
pub fn link_claim_entity_on<'a>(link: &'a ClaimEntityLink, plan: &mut Vec<Write<'a>>)
    ensures
        steps_of(final(plan)@) == steps_of(old(plan)@) + claim_entity_steps(*link),
{
    let ghost start = steps_of(plan@);
    push_step(plan, Write::ClaimEntity(link));
    push_step(plan, Write::Record(claim_entity_upsert_operation(link)));
    assert(steps_of(plan@) =~= start + claim_entity_steps(*link));
}

/// The steps that write evidence for a claim.
pub open spec fn claim_evidence_steps(evidence: ClaimEvidence) -> Seq<Step> {
    seq![Step::ClaimEvidence(evidence@), Step::Record(claim_evidence_upsert_record(evidence))]
}

/// Plans the writing of evidence for a claim.
pub fn add_claim_evidence_on<'a>(evidence: &'a ClaimEvidence, plan: &mut Vec<Write<'a>>)
    ensures
        steps_of(final(plan)@) == steps_of(old(plan)@) + claim_evidence_steps(*evidence),
{
    let ghost start = steps_of(plan@);
    push_step(plan, Write::ClaimEvidence(evidence));
    push_step(plan, Write::Record(claim_evidence_upsert_operation(evidence)));
    assert(steps_of(plan@) =~= start + claim_evidence_steps(*evidence));
}

/// The steps that write a relationship.
pub open spec fn relationship_steps(relationship: EntityRelationship) -> Seq<Step> {
    seq![Step::Relationship(relationship@), Step::Record(relationship_upsert_record(relationship))]
}

/// Plans the writing of a relationship.
pub fn upsert_entity_relationship_on<'a>(relationship: &'a EntityRelationship, plan: &mut Vec<Write<'a>>)
    ensures
        steps_of(final(plan)@) == steps_of(old(plan)@) + relationship_steps(*relationship),
{
    let ghost start = steps_of(plan@);
    push_step(plan, Write::Relationship(relationship));
    push_step(plan, Write::Record(relationship_upsert_operation(relationship)));
    assert(steps_of(plan@) =~= start + relationship_steps(*relationship));
}

/// The steps that write evidence for a relationship.
pub open spec fn relationship_evidence_steps(evidence: RelationshipEvidence) -> Seq<Step> {
    seq![Step::RelationshipEvidence(evidence@), Step::Record(relationship_evidence_upsert_record(evidence))]
}

/// Plans the writing of evidence for a relationship.
pub fn add_relationship_evidence_on<'a>(evidence: &'a RelationshipEvidence, plan: &mut Vec<Write<'a>>)
    ensures
        steps_of(final(plan)@) == steps_of(old(plan)@) + relationship_evidence_steps(*evidence),
{
    let ghost start = steps_of(plan@);
    push_step(plan, Write::RelationshipEvidence(evidence));
    push_step(plan, Write::Record(relationship_evidence_upsert_operation(evidence)));
    assert(steps_of(plan@) =~= start + relationship_evidence_steps(*evidence));
}

/// The steps that write entities, one after another.
pub open spec fn entity_all(items: Seq<EntityRecord>) -> Seq<Step>
    decreases items.len(),
{
    if items.len() == 0 {
        Seq::empty()
    } else {
        entity_all(items.drop_last()) + entity_steps(items.last())
    }
}

fn entities_on<'a>(items: &'a Vec<EntityRecord>, plan: &mut Vec<Write<'a>>)
    ensures
        steps_of(final(plan)@) == steps_of(old(plan)@) + entity_all(items@),
{
    let ghost start = steps_of(plan@);
    proof {
        assert(start + entity_all(items@.take(0)) =~= start);
    }
    for i in 0..items.len()
        invariant
            steps_of(plan@) == start + entity_all(items@.take(i as int)),
    {
        proof {
            assert(items@.take(i + 1).drop_last() =~= items@.take(i as int));
        }
        upsert_entity_on(&items[i], plan);
        assert(steps_of(plan@) =~= start + entity_all(items@.take(i + 1)));
    }
    proof {
        assert(items@.take(items.len() as int) =~= items@);
    }
}

/// The steps that write aliases, one after another.
pub open spec fn alias_all(items: Seq<EntityAlias>) -> Seq<Step>
    decreases items.len(),
{
    if items.len() == 0 {
        Seq::empty()
    } else {
        alias_all(items.drop_last()) + alias_steps(items.last())
    }
}

fn aliases_on<'a>(items: &'a Vec<EntityAlias>, plan: &mut Vec<Write<'a>>)
    ensures
        steps_of(final(plan)@) == steps_of(old(plan)@) + alias_all(items@),
{
    let ghost start = steps_of(plan@);
    proof {
        assert(start + alias_all(items@.take(0)) =~= start);
    }
    for i in 0..items.len()
        invariant
            steps_of(plan@) == start + alias_all(items@.take(i as int)),
    {
        proof {
            assert(items@.take(i + 1).drop_last() =~= items@.take(i as int));
        }
        add_entity_alias_on(&items[i], plan);
        assert(steps_of(plan@) =~= start + alias_all(items@.take(i + 1)));
    }
    proof {
        assert(items@.take(items.len() as int) =~= items@);
    }
}

/// The steps that write links of memories to entities, one after another.
pub open spec fn memory_entity_all(items: Seq<MemoryEntityLink>) -> Seq<Step>
    decreases items.len(),
{
    if items.len() == 0 {
        Seq::empty()
    } else {
        memory_entity_all(items.drop_last()) + memory_entity_steps(items.last())
    }
}

fn memory_entities_on<'a>(items: &'a Vec<MemoryEntityLink>, plan: &mut Vec<Write<'a>>)
    ensures
        steps_of(final(plan)@) == steps_of(old(plan)@) + memory_entity_all(items@),
{
    let ghost start = steps_of(plan@);
    proof {
        assert(start + memory_entity_all(items@.take(0)) =~= start);
    }
    for i in 0..items.len()
        invariant
            steps_of(plan@) == start + memory_entity_all(items@.take(i as int)),
    {
        proof {
            assert(items@.take(i + 1).drop_last() =~= items@.take(i as int));
        }
        link_memory_entity_on(&items[i], plan);
        assert(steps_of(plan@) =~= start + memory_entity_all(items@.take(i + 1)));
    }
    proof {
        assert(items@.take(items.len() as int) =~= items@);
    }
}

/// The steps that write claims, one after another.
pub open spec fn claim_all(items: Seq<ClaimRecord>) -> Seq<Step>
    decreases items.len(),
{
    if items.len() == 0 {
        Seq::empty()
    } else {
        claim_all(items.drop_last()) + claim_steps(items.last())
    }
}

fn claims_on<'a>(items: &'a Vec<ClaimRecord>, plan: &mut Vec<Write<'a>>)
    ensures
        steps_of(final(plan)@) == steps_of(old(plan)@) + claim_all(items@),
{
    let ghost start = steps_of(plan@);
    proof {
        assert(start + claim_all(items@.take(0)) =~= start);
    }
    for i in 0..items.len()
        invariant
            steps_of(plan@) == start + claim_all(items@.take(i as int)),
    {
        proof {
            assert(items@.take(i + 1).drop_last() =~= items@.take(i as int));
        }
        upsert_claim_on(&items[i], plan);
        assert(steps_of(plan@) =~= start + claim_all(items@.take(i + 1)));
    }
    proof {
        assert(items@.take(items.len() as int) =~= items@);
    }
}

/// The steps that write links of claims to entities, one after another.
pub open spec fn claim_entity_all(items: Seq<ClaimEntityLink>) -> Seq<Step>
    decreases items.len(),
{
    if items.len() == 0 {
        Seq::empty()
    } else {
        claim_entity_all(items.drop_last()) + claim_entity_steps(items.last())
    }
}

fn claim_entities_on<'a>(items: &'a Vec<ClaimEntityLink>, plan: &mut Vec<Write<'a>>)
    ensures
        steps_of(final(plan)@) == steps_of(old(plan)@) + claim_entity_all(items@),
{
    let ghost start = steps_of(plan@);
    proof {
        assert(start + claim_entity_all(items@.take(0)) =~= start);
    }
    for i in 0..items.len()
        invariant
            steps_of(plan@) == start + claim_entity_all(items@.take(i as int)),
    {
        proof {
            assert(items@.take(i + 1).drop_last() =~= items@.take(i as int));
        }
        link_claim_entity_on(&items[i], plan);
        assert(steps_of(plan@) =~= start + claim_entity_all(items@.take(i + 1)));
    }
    proof {
        assert(items@.take(items.len() as int) =~= items@);
    }
}

/// The steps that write evidence for claims, one after another.
pub open spec fn claim_evidence_all(items: Seq<ClaimEvidence>) -> Seq<Step>
    decreases items.len(),
{
    if items.len() == 0 {
        Seq::empty()
    } else {
        claim_evidence_all(items.drop_last()) + claim_evidence_steps(items.last())
    }
}

fn claim_evidence_on<'a>(items: &'a Vec<ClaimEvidence>, plan: &mut Vec<Write<'a>>)
    ensures
        steps_of(final(plan)@) == steps_of(old(plan)@) + claim_evidence_all(items@),
{
    let ghost start = steps_of(plan@);
    proof {
        assert(start + claim_evidence_all(items@.take(0)) =~= start);
    }
    for i in 0..items.len()
        invariant
            steps_of(plan@) == start + claim_evidence_all(items@.take(i as int)),
    {
        proof {
            assert(items@.take(i + 1).drop_last() =~= items@.take(i as int));
        }
        add_claim_evidence_on(&items[i], plan);
        assert(steps_of(plan@) =~= start + claim_evidence_all(items@.take(i + 1)));
    }
    proof {
        assert(items@.take(items.len() as int) =~= items@);
    }
}

/// The steps that write relationships, one after another.
pub open spec fn relationship_all(items: Seq<EntityRelationship>) -> Seq<Step>
    decreases items.len(),
{
    if items.len() == 0 {
        Seq::empty()
    } else {
        relationship_all(items.drop_last()) + relationship_steps(items.last())
    }
}

fn relationships_on<'a>(items: &'a Vec<EntityRelationship>, plan: &mut Vec<Write<'a>>)
    ensures
        steps_of(final(plan)@) == steps_of(old(plan)@) + relationship_all(items@),
{
    let ghost start = steps_of(plan@);
    proof {
        assert(start + relationship_all(items@.take(0)) =~= start);
    }
    for i in 0..items.len()
        invariant
            steps_of(plan@) == start + relationship_all(items@.take(i as int)),
    {
        proof {
            assert(items@.take(i + 1).drop_last() =~= items@.take(i as int));
        }
        upsert_entity_relationship_on(&items[i], plan);
        assert(steps_of(plan@) =~= start + relationship_all(items@.take(i + 1)));
    }
    proof {
        assert(items@.take(items.len() as int) =~= items@);
    }
}

/// The steps that write evidence for relationships, one after another.
pub open spec fn relationship_evidence_all(items: Seq<RelationshipEvidence>) -> Seq<Step>
    decreases items.len(),
{
    if items.len() == 0 {
        Seq::empty()
    } else {
        relationship_evidence_all(items.drop_last()) + relationship_evidence_steps(items.last())
    }
}

fn relationship_evidence_on<'a>(items: &'a Vec<RelationshipEvidence>, plan: &mut Vec<Write<'a>>)
    ensures
        steps_of(final(plan)@) == steps_of(old(plan)@) + relationship_evidence_all(items@),
{
    let ghost start = steps_of(plan@);
    proof {
        assert(start + relationship_evidence_all(items@.take(0)) =~= start);
    }
    for i in 0..items.len()
        invariant
            steps_of(plan@) == start + relationship_evidence_all(items@.take(i as int)),
    {
        proof {
            assert(items@.take(i + 1).drop_last() =~= items@.take(i as int));
        }
        add_relationship_evidence_on(&items[i], plan);
        assert(steps_of(plan@) =~= start + relationship_evidence_all(items@.take(i + 1)));
    }
    proof {
        assert(items@.take(items.len() as int) =~= items@);
    }
}

/// The steps that write entities with their aliases and links.
pub open spec fn bundle_steps(
    entities: Seq<EntityRecord>,
    aliases: Seq<EntityAlias>,
    links: Seq<MemoryEntityLink>,
) -> Seq<Step> {
    entity_all(entities) + alias_all(aliases) + memory_entity_all(links)
}

fn bundle_on<'a>(
    entities: &'a Vec<EntityRecord>,
    aliases: &'a Vec<EntityAlias>,
    links: &'a Vec<MemoryEntityLink>,
    plan: &mut Vec<Write<'a>>,
)
    ensures
        steps_of(final(plan)@) == steps_of(old(plan)@) + bundle_steps(
            entities@,
            aliases@,
            links@,
        ),
{
    let ghost start = steps_of(plan@);
    entities_on(entities, plan);
    aliases_on(aliases, plan);
    memory_entities_on(links, plan);
    assert(steps_of(plan@) =~= start + bundle_steps(entities@, aliases@, links@));
}

fn no_steps<'a>() -> (res: Vec<Write<'a>>)
    ensures
        steps_of(res@) == Seq::<Step>::empty(),
{
    let plan: Vec<Write<'a>> = Vec::new();
    assert(steps_of(plan@) =~= Seq::empty());
    plan
}

/// Plans the writing of canonical entities, aliases and links in one
/// transaction.
pub fn upsert_entity_bundle<'a>(
    entities: &'a Vec<EntityRecord>,
    aliases: &'a Vec<EntityAlias>,
    links: &'a Vec<MemoryEntityLink>,
) -> (res: Vec<Write<'a>>)
    ensures
        steps_of(res@) == bundle_steps(entities@, aliases@, links@),
{
    let mut plan = no_steps();
    bundle_on(entities, aliases, links, &mut plan);
    assert(steps_of(plan@) =~= bundle_steps(entities@, aliases@, links@));
    plan
}

/// The steps that replace the entity links of a memory.
pub open spec fn replace_steps(
    id: MemoryId,
    entities: Seq<EntityRecord>,
    aliases: Seq<EntityAlias>,
    links: Seq<MemoryEntityLink>,
) -> Seq<Step> {
    seq![Step::MemoryEntitiesClear(id)] + bundle_steps(entities, aliases, links) + seq![
        Step::Record(
            links_replace_record(
                id,
                entities.len() as usize,
                aliases.len() as usize,
                links.len() as usize,
            ),
        ),
    ]
}

/// Plans the replacement of all entity links of a memory, with the entities and
/// aliases that the new links use.
pub fn replace_memory_entity_bundle<'a>(
    memory_id: MemoryId,
    entities: &'a Vec<EntityRecord>,
    aliases: &'a Vec<EntityAlias>,
    links: &'a Vec<MemoryEntityLink>,
) -> (res: Vec<Write<'a>>)
    ensures
        steps_of(res@) == replace_steps(memory_id, entities@, aliases@, links@),
{
    let mut plan = no_steps();
    push_step(&mut plan, Write::MemoryEntitiesClear(memory_id));
    bundle_on(entities, aliases, links, &mut plan);
    push_step(
        &mut plan,
        Write::Record(
            links_replace_operation(memory_id, entities.len(), aliases.len(), links.len()),
        ),
    );
    assert(steps_of(plan@) =~= replace_steps(memory_id, entities@, aliases@, links@));
    plan
}

/// Plans the adding of an event to the timeline of its conversation, which is
/// created where it is missing.
pub fn add_conversation_event<'a>(event: &'a ConversationEvent) -> (res: Vec<Write<'a>>)
    ensures
        steps_of(res@) == seq![Step::ConversationTouch(event@)] + event_steps(*event),
{
    let mut plan = no_steps();
    push_step(&mut plan, Write::ConversationTouch(event));
    insert_conversation_event_on(event, &mut plan);
    assert(steps_of(plan@) =~= seq![Step::ConversationTouch(event@)] + event_steps(*event));
    plan
}

/// The steps that write a claim with its links and evidence.
pub open spec fn claim_bundle_steps(
    claim: ClaimRecord,
    entities: Seq<ClaimEntityLink>,
    evidence: Seq<ClaimEvidence>,
) -> Seq<Step> {
    claim_steps(claim) + claim_entity_all(entities) + claim_evidence_all(evidence)
}

/// Plans the writing of a claim and all of its links in one transaction.
pub fn upsert_claim_bundle<'a>(
    claim: &'a ClaimRecord,
    entities: &'a Vec<ClaimEntityLink>,
    evidence: &'a Vec<ClaimEvidence>,
) -> (res: Vec<Write<'a>>)
    ensures
        steps_of(res@) == claim_bundle_steps(*claim, entities@, evidence@),
{
    let mut plan = no_steps();
    upsert_claim_on(claim, &mut plan);
    claim_entities_on(entities, &mut plan);
    claim_evidence_on(evidence, &mut plan);
    assert(steps_of(plan@) =~= claim_bundle_steps(*claim, entities@, evidence@));
    plan
}

/// Plans the writing of a relationship and its evidence in one transaction.
pub fn upsert_relationship_bundle<'a>(
    relationship: &'a EntityRelationship,
    evidence: &'a Vec<RelationshipEvidence>,
) -> (res: Vec<Write<'a>>)
    ensures
        steps_of(res@) == relationship_steps(*relationship) + relationship_evidence_all(evidence@),
{
    let mut plan = no_steps();
    upsert_entity_relationship_on(relationship, &mut plan);
    relationship_evidence_on(evidence, &mut plan);
    assert(steps_of(plan@) =~= relationship_steps(*relationship) + relationship_evidence_all(
        evidence@,
    ));
    plan
}

/// The steps that write everything that a run derived.
pub open spec fn artifact_steps(batch: ValidatedExtractionBatch) -> Seq<Step> {
    run_steps(batch.run) + claim_all(batch.claims@) + claim_entity_all(batch.claim_entities@)
        + claim_evidence_all(batch.claim_evidence@) + relationship_all(batch.relationships@)
        + relationship_evidence_all(batch.relationship_evidence@) + seq![
        Step::Record(
            artifacts_persist_record(
                batch.run,
                batch.claims@.len() as usize,
                batch.claim_entities@.len() as usize,
                batch.claim_evidence@.len() as usize,
                batch.relationships@.len() as usize,
                batch.relationship_evidence@.len() as usize,
            ),
        ),
    ]
}

/// Plans the writing of a run and everything that it derived in one
/// transaction.
pub fn persist_extraction_artifacts<'a>(batch: &'a ValidatedExtractionBatch) -> (res: Vec<
    Write<'a>,
>)
    ensures
        steps_of(res@) == artifact_steps(*batch),
{
    let mut plan = no_steps();
    upsert_extraction_run_on(&batch.run, &mut plan);
    claims_on(&batch.claims, &mut plan);
    claim_entities_on(&batch.claim_entities, &mut plan);
    claim_evidence_on(&batch.claim_evidence, &mut plan);
    relationships_on(&batch.relationships, &mut plan);
    relationship_evidence_on(&batch.relationship_evidence, &mut plan);
    push_step(
        &mut plan,
        Write::Record(
            artifacts_persist_operation(
                &batch.run,
                batch.claims.len(),
                batch.claim_entities.len(),
                batch.claim_evidence.len(),
                batch.relationships.len(),
                batch.relationship_evidence.len(),
            ),
        ),
    );
    assert(steps_of(plan@) =~= artifact_steps(*batch));
    plan
}

/// The plan that stores a validated batch, or what is wrong with the batch.
pub fn store_validated_extraction<'a>(batch: &'a ValidatedExtractionBatch) -> (res: Result<
    Vec<Write<'a>>,
    MenteError,
>)
    ensures
        match res {
            Ok(plan) => crate::extraction_jobs::batch_problem(*batch) is None && steps_of(plan@)
                == artifact_steps(*batch),
            Err(e) => crate::extraction_jobs::batch_problem(*batch) == Some(e@),
        },
{
    crate::extraction_jobs::validate_extraction_batch(batch)?;
    Ok(persist_extraction_artifacts(batch))
}

/// The column of an optional role: an absent one is the empty text.
pub open spec fn role_column_of(role: Option<Seq<char>>) -> Seq<char> {
    match role {
        Some(r) => r,
        None => Seq::empty(),
    }
}

/// The role of a column: the empty text is none.
pub open spec fn role_of(column: Seq<char>) -> Option<Seq<char>> {
    if column.len() == 0 {
        None
    } else {
        Some(column)
    }
}

/// The column of an optional role.
pub fn role_column(role: &Option<String>) -> (res: String)
    ensures
        res@ == role_column_of(opt_view(*role)),
{
    match role {
        Some(r) => copy_text(r.as_str()),
        None => String::new(),
    }
}

/// The role of a column.
pub fn role_from_column(column: String) -> (res: Option<String>)
    ensures
        opt_view(res) == role_of(column@),
{
    if column.as_str().is_empty() {
        None
    } else {
        Some(column)
    }
}

/// A role survives its column, unless it is the empty text, which reads as no
/// role.
pub proof fn law_role_round_trip(role: Option<Seq<char>>)
    requires
        role is Some ==> role->0.len() > 0,
    ensures
        role_of(role_column_of(role)) == role,
{
}

// ---------------------------------------------------------------------------
// Traces
// ---------------------------------------------------------------------------
/// The steps that record a trace: its header and its hits. A trace is no part of
/// the store, so no audit record goes with it.
pub open spec fn trace_steps(
    row: TraceColumns,
    config: RetrievalConfig,
    hits: Seq<TraceHitColumns>,
) -> Seq<Step> {
    seq![Step::Trace(row, config)] + hits.map_values(|h: TraceHitColumns| Step::TraceHit(h))
}

/// Plans the recording of a trace.
pub fn record_retrieval_trace<'a>(
    row: &'a TraceRow,
    config: &'a RetrievalConfig,
    hits: &'a Vec<TraceHitRow>,
) -> (res: Vec<Write<'a>>)
    ensures
        steps_of(res@) == trace_steps(row@, *config, views_of(hits@)),
{
    let ghost all = views_of(hits@);
    let mut plan = no_steps();
    push_step(&mut plan, Write::Trace(row, config));
    assert(steps_of(plan@) =~= trace_steps(row@, *config, all.take(0)));
    for i in 0..hits.len()
        invariant
            all == views_of(hits@),
            steps_of(plan@) == trace_steps(row@, *config, all.take(i as int)),
    {
        push_step(&mut plan, Write::TraceHit(&hits[i]));
        assert(steps_of(plan@) =~= trace_steps(row@, *config, all.take(i + 1)));
    }
    assert(all.take(all.len() as int) =~= all);
    plan
}

/// The steps that drop traces, each with its hits.
pub open spec fn purge_steps(stale: Seq<Seq<char>>) -> Seq<Step>
    decreases stale.len(),
{
    if stale.len() == 0 {
        Seq::empty()
    } else {
        purge_steps(stale.drop_last()).push(Step::TraceHitsClear(stale.last())).push(
            Step::TraceClear(stale.last()),
        )
    }
}

/// Plans the dropping of traces.
pub fn purge_old_traces<'a>(stale: &'a Vec<String>) -> (res: Vec<Write<'a>>)
    ensures
        steps_of(res@) == purge_steps(views(stale@)),
{
    let ghost all = views(stale@);
    let mut plan = no_steps();
    assert(purge_steps(all.take(0)) =~= Seq::empty());
    for i in 0..stale.len()
        invariant
            all == views(stale@),
            steps_of(plan@) == purge_steps(all.take(i as int)),
    {
        proof {
            assert(all.take(i + 1).drop_last() =~= all.take(i as int));
            assert(all.take(i + 1).last() == stale@[i as int]@);
        }
        push_step(&mut plan, Write::TraceHitsClear(&stale[i]));
        push_step(&mut plan, Write::TraceClear(&stale[i]));
    }
    assert(all.take(all.len() as int) =~= all);
    plan
}

} // verus!
