//! The audit trail: what is recorded of each logical write.
use crate::codec::{edge_type_name, edge_type_str, memory_type_name, memory_type_str};
use crate::float::Single;
use crate::ids::{id_text, uuid_text};
use crate::memory::{EdgeView, MemoryEdge, MemoryId, MemoryNode, MemoryView, Timestamp};
use crate::records::{
    ClaimEntityLink, ClaimEvidence, ClaimRecord, ConversationEvent, ConversationRecord, EntityAlias,
    EntityRecord, EntityRelationship, ExtractionRun, MemoryEntityLink, MemorySource,
    RelationshipEvidence,
};
use crate::text::{byte_count, byte_len, copy_text, copy_texts, opt_view, views};
use vstd::prelude::*;

verus! {

/// A value in the payload of an audit record.
#[derive(Debug)]
pub enum Field {
    Null,
    Count(u64),
    Integer(i64),
    Real(Single),
    Text(String),
    List(Vec<String>),
}

/// The mathematical form of a payload value.
pub enum Datum {
    Null,
    Count(u64),
    Integer(i64),
    Real(Single),
    Text(Seq<char>),
    List(Seq<Seq<char>>),
}

impl View for Field {
    type V = Datum;

    open spec fn view(&self) -> Datum {
        match *self {
            Field::Null => Datum::Null,
            Field::Count(n) => Datum::Count(n),
            Field::Integer(i) => Datum::Integer(i),
            Field::Real(x) => Datum::Real(x),
            Field::Text(s) => Datum::Text(s@),
            Field::List(items) => Datum::List(views(items@)),
        }
    }
}

/// A named payload value.
#[derive(Debug)]
pub struct PayloadField {
    pub name: &'static str,
    pub value: Field,
}

impl View for PayloadField {
    type V = (Seq<char>, Datum);

    open spec fn view(&self) -> (Seq<char>, Datum) {
        (self.name@, self.value@)
    }
}

/// The mathematical form of a payload.
pub open spec fn payload_view(fields: Seq<PayloadField>) -> Seq<(Seq<char>, Datum)> {
    fields.map_values(|f: PayloadField| f@)
}

/// A write-side audit record, without its identity and its time.
#[derive(Debug)]
pub struct Operation {
    pub operation_type: &'static str,
    pub memory_id: Option<MemoryId>,
    pub source: Option<MemoryId>,
    pub target: Option<MemoryId>,
    pub payload: Vec<PayloadField>,
}

/// The mathematical form of an audit record.
#[verifier::ext_equal]
pub struct OperationView {
    pub operation_type: Seq<char>,
    pub memory_id: Option<MemoryId>,
    pub source: Option<MemoryId>,
    pub target: Option<MemoryId>,
    pub payload: Seq<(Seq<char>, Datum)>,
}

impl View for Operation {
    type V = OperationView;

    open spec fn view(&self) -> OperationView {
        OperationView {
            operation_type: self.operation_type@,
            memory_id: self.memory_id,
            source: self.source,
            target: self.target,
            payload: payload_view(self.payload@),
        }
    }
}

/// An optional text as a payload value.
pub open spec fn text_or_null(s: Option<Seq<char>>) -> Datum {
    match s {
        Some(t) => Datum::Text(t),
        None => Datum::Null,
    }
}

/// An optional timestamp as a payload value.
pub open spec fn time_or_null(t: Option<Timestamp>) -> Datum {
    match t {
        Some(x) => Datum::Count(x),
        None => Datum::Null,
    }
}

fn text_field(s: &str) -> (res: Field)
    ensures
        res@ == Datum::Text(s@),
{
    Field::Text(copy_text(s))
}

fn opt_text_field(s: &Option<String>) -> (res: Field)
    ensures
        res@ == text_or_null(opt_view(*s)),
{
    match s {
        Some(t) => Field::Text(copy_text(t.as_str())),
        None => Field::Null,
    }
}

fn opt_time_field(t: Option<Timestamp>) -> (res: Field)
    ensures
        res@ == time_or_null(t),
{
    match t {
        Some(x) => Field::Count(x),
        None => Field::Null,
    }
}

/// A copy of a payload.
pub fn copy_payload(fields: &Vec<PayloadField>) -> (res: Vec<PayloadField>)
    ensures
        payload_view(res@) == payload_view(fields@),
{
    let ghost all = payload_view(fields@);
    let mut out: Vec<PayloadField> = Vec::new();
    for i in 0..fields.len()
        invariant
            all == payload_view(fields@),
            payload_view(out@) =~= all.take(i as int),
    {
        let value = match &fields[i].value {
            Field::Null => Field::Null,
            Field::Count(n) => Field::Count(*n),
            Field::Integer(n) => Field::Integer(*n),
            Field::Real(x) => Field::Real(*x),
            Field::Text(s) => Field::Text(copy_text(s.as_str())),
            Field::List(items) => Field::List(copy_texts(items)),
        };
        let copied = PayloadField { name: fields[i].name, value };
        let ghost before = out@;
        out.push(copied);
        proof {
            assert(copied@ == all[i as int]);
            assert(payload_view(out@) =~= payload_view(before).push(copied@));
            assert(all.take(i + 1) =~= all.take(i as int).push(all[i as int]));
        }
    }
    proof {
        assert(all.take(all.len() as int) =~= all);
    }
    out
}

pub(crate) fn field(name: &'static str, value: Field) -> (res: PayloadField)
    ensures
        res@ == (name@, value@),
{
    PayloadField { name, value }
}

/// What is recorded when a memory is stored.
pub open spec fn memory_upsert_record(m: MemoryView) -> OperationView {
    OperationView {
        operation_type: "memory_upsert"@,
        memory_id: Some(m.id),
        source: None,
        target: None,
        payload: seq![
            ("agent_id"@, Datum::Text(uuid_text(m.agent_id.value))),
            ("space_id"@, Datum::Text(uuid_text(m.space_id.value))),
            ("memory_type"@, Datum::Text(memory_type_name(m.memory_type))),
            ("content_len"@, Datum::Count(byte_count(m.content) as u64)),
            ("embedding_dim"@, Datum::Count(m.embedding.len() as u64)),
            ("tag_count"@, Datum::Count(m.tags.len() as u64)),
            ("valid_from"@, time_or_null(m.valid_from)),
            ("valid_until"@, time_or_null(m.valid_until)),
        ],
    }
}

/// What is recorded when a memory is stored.
pub fn memory_upsert_operation(node: &MemoryNode) -> (res: Operation)
    ensures
        res@ == memory_upsert_record(node@),
{
    let mut payload: Vec<PayloadField> = Vec::new();
    payload.push(field("agent_id", Field::Text(id_text(&node.agent_id))));
    payload.push(field("space_id", Field::Text(id_text(&node.space_id))));
    payload.push(field("memory_type", text_field(memory_type_str(node.memory_type))));
    payload.push(field("content_len", Field::Count(byte_len(node.content.as_str()) as u64)));
    payload.push(field("embedding_dim", Field::Count(node.embedding.len() as u64)));
    payload.push(field("tag_count", Field::Count(node.tags.len() as u64)));
    payload.push(field("valid_from", opt_time_field(node.valid_from)));
    payload.push(field("valid_until", opt_time_field(node.valid_until)));
    let res = Operation {
        operation_type: "memory_upsert",
        memory_id: Some(node.id),
        source: None,
        target: None,
        payload,
    };
    proof {
        assert(res@.payload =~= memory_upsert_record(node@).payload);
        assert(res@ =~= memory_upsert_record(node@));
    }
    res
}

/// What is recorded when a memory is deleted.
pub open spec fn memory_delete_record(id: MemoryId, rowid: i64, deleted_tags: usize, deleted_edges: usize) -> OperationView {
    OperationView {
        operation_type: "memory_delete"@,
        memory_id: Some(id),
        source: None,
        target: None,
        payload: seq![
            ("rowid"@, Datum::Integer(rowid)),
            ("deleted_tags"@, Datum::Count(deleted_tags as u64)),
            ("deleted_edges"@, Datum::Count(deleted_edges as u64)),
        ],
    }
}

/// What is recorded when a memory is deleted.
pub fn memory_delete_operation(id: MemoryId, rowid: i64, deleted_tags: usize, deleted_edges: usize) -> (res: Operation)
    ensures
        res@ == memory_delete_record(id, rowid, deleted_tags, deleted_edges),
{
    let mut payload: Vec<PayloadField> = Vec::new();
    payload.push(field("rowid", Field::Integer(rowid)));
    payload.push(field("deleted_tags", Field::Count(deleted_tags as u64)));
    payload.push(field("deleted_edges", Field::Count(deleted_edges as u64)));
    let res = Operation {
        operation_type: "memory_delete",
        memory_id: Some(id),
        source: None,
        target: None,
        payload,
    };
    proof {
        assert(res@.payload =~= memory_delete_record(id, rowid, deleted_tags, deleted_edges).payload);
        assert(res@ =~= memory_delete_record(id, rowid, deleted_tags, deleted_edges));
    }
    res
}

/// What is recorded when an edge is added.
pub open spec fn edge_insert_record(e: EdgeView) -> OperationView {
    OperationView {
        operation_type: "edge_insert"@,
        memory_id: None,
        source: Some(e.source),
        target: Some(e.target),
        payload: seq![
            ("edge_type"@, Datum::Text(edge_type_name(e.edge_type))),
            ("weight"@, Datum::Real(e.weight)),
            ("valid_from"@, time_or_null(e.valid_from)),
            ("valid_until"@, time_or_null(e.valid_until)),
            ("label"@, text_or_null(e.label)),
        ],
    }
}

/// What is recorded when an edge is added.
pub fn edge_insert_operation(edge: &MemoryEdge) -> (res: Operation)
    ensures
        res@ == edge_insert_record(edge@),
{
    let mut payload: Vec<PayloadField> = Vec::new();
    payload.push(field("edge_type", text_field(edge_type_str(edge.edge_type))));
    payload.push(field("weight", Field::Real(edge.weight)));
    payload.push(field("valid_from", opt_time_field(edge.valid_from)));
    payload.push(field("valid_until", opt_time_field(edge.valid_until)));
    payload.push(field("label", opt_text_field(&edge.label)));
    let res = Operation {
        operation_type: "edge_insert",
        memory_id: None,
        source: Some(edge.source),
        target: Some(edge.target),
        payload,
    };
    proof {
        assert(res@.payload =~= edge_insert_record(edge@).payload);
        assert(res@ =~= edge_insert_record(edge@));
    }
    res
}

/// What is recorded when the edges of a memory are deleted.
pub open spec fn edges_delete_record(id: MemoryId, deleted_edges: usize) -> OperationView {
    OperationView {
        operation_type: "edge_delete_for_memory"@,
        memory_id: Some(id),
        source: None,
        target: None,
        payload: seq![
            ("deleted_edges"@, Datum::Count(deleted_edges as u64)),
        ],
    }
}

/// What is recorded when the edges of a memory are deleted.
pub fn edges_delete_operation(id: MemoryId, deleted_edges: usize) -> (res: Operation)
    ensures
        res@ == edges_delete_record(id, deleted_edges),
{
    let mut payload: Vec<PayloadField> = Vec::new();
    payload.push(field("deleted_edges", Field::Count(deleted_edges as u64)));
    let res = Operation {
        operation_type: "edge_delete_for_memory",
        memory_id: Some(id),
        source: None,
        target: None,
        payload,
    };
    proof {
        assert(res@.payload =~= edges_delete_record(id, deleted_edges).payload);
        assert(res@ =~= edges_delete_record(id, deleted_edges));
    }
    res
}

/// What is recorded when the vector index is built anew.
pub open spec fn index_rebuild_record(dim: usize, backfilled: usize, skipped: usize) -> OperationView {
    OperationView {
        operation_type: "vector_index_rebuild"@,
        memory_id: None,
        source: None,
        target: None,
        payload: seq![
            ("embedding_dim"@, Datum::Count(dim as u64)),
            ("backfilled"@, Datum::Count(backfilled as u64)),
            ("skipped_dimension_mismatch"@, Datum::Count(skipped as u64)),
        ],
    }
}

/// What is recorded when the vector index is built anew.
pub fn index_rebuild_operation(dim: usize, backfilled: usize, skipped: usize) -> (res: Operation)
    ensures
        res@ == index_rebuild_record(dim, backfilled, skipped),
{
    let mut payload: Vec<PayloadField> = Vec::new();
    payload.push(field("embedding_dim", Field::Count(dim as u64)));
    payload.push(field("backfilled", Field::Count(backfilled as u64)));
    payload.push(field("skipped_dimension_mismatch", Field::Count(skipped as u64)));
    let res = Operation {
        operation_type: "vector_index_rebuild",
        memory_id: None,
        source: None,
        target: None,
        payload,
    };
    proof {
        assert(res@.payload =~= index_rebuild_record(dim, backfilled, skipped).payload);
        assert(res@ =~= index_rebuild_record(dim, backfilled, skipped));
    }
    res
}

/// What is recorded when provenance is written.
pub open spec fn source_upsert_record(source: MemorySource) -> OperationView {
    OperationView {
        operation_type: "memory_source_upsert"@,
        memory_id: Some(source.memory_id),
        source: None,
        target: None,
        payload: seq![
            ("source_id"@, Datum::Text(source.source_id@)),
            ("source_type"@, Datum::Text(source.source_type@)),
            ("conversation_id"@, text_or_null(opt_view(source.conversation_id))),
            ("turn_id"@, text_or_null(opt_view(source.turn_id))),
            ("actor_id"@, text_or_null(opt_view(source.actor_id))),
            ("observed_at"@, time_or_null(source.observed_at)),
            ("extractor"@, text_or_null(opt_view(source.extractor))),
            ("extractor_hash"@, text_or_null(opt_view(source.extractor_hash))),
            ("prompt_hash"@, text_or_null(opt_view(source.prompt_hash))),
        ],
    }
}

/// What is recorded when provenance is written.
pub fn source_upsert_operation(source: &MemorySource) -> (res: Operation)
    ensures
        res@ == source_upsert_record(*source),
{
    let mut payload: Vec<PayloadField> = Vec::new();
    payload.push(field("source_id", text_field(source.source_id.as_str())));
    payload.push(field("source_type", text_field(source.source_type.as_str())));
    payload.push(field("conversation_id", opt_text_field(&source.conversation_id)));
    payload.push(field("turn_id", opt_text_field(&source.turn_id)));
    payload.push(field("actor_id", opt_text_field(&source.actor_id)));
    payload.push(field("observed_at", opt_time_field(source.observed_at)));
    payload.push(field("extractor", opt_text_field(&source.extractor)));
    payload.push(field("extractor_hash", opt_text_field(&source.extractor_hash)));
    payload.push(field("prompt_hash", opt_text_field(&source.prompt_hash)));
    let res = Operation {
        operation_type: "memory_source_upsert",
        memory_id: Some(source.memory_id),
        source: None,
        target: None,
        payload,
    };
    proof {
        assert(res@.payload =~= source_upsert_record(*source).payload);
        assert(res@ =~= source_upsert_record(*source));
    }
    res
}

/// What is recorded when an entity is written.
pub open spec fn entity_upsert_record(entity: EntityRecord) -> OperationView {
    OperationView {
        operation_type: "entity_upsert"@,
        memory_id: None,
        source: None,
        target: None,
        payload: seq![
            ("entity_id"@, Datum::Text(entity.entity_id@)),
            ("entity_type"@, Datum::Text(entity.entity_type@)),
            ("canonical"@, Datum::Text(entity.canonical@)),
            ("confidence"@, Datum::Real(entity.confidence)),
        ],
    }
}

/// What is recorded when an entity is written.
pub fn entity_upsert_operation(entity: &EntityRecord) -> (res: Operation)
    ensures
        res@ == entity_upsert_record(*entity),
{
    let mut payload: Vec<PayloadField> = Vec::new();
    payload.push(field("entity_id", text_field(entity.entity_id.as_str())));
    payload.push(field("entity_type", text_field(entity.entity_type.as_str())));
    payload.push(field("canonical", text_field(entity.canonical.as_str())));
    payload.push(field("confidence", Field::Real(entity.confidence)));
    let res = Operation {
        operation_type: "entity_upsert",
        memory_id: None,
        source: None,
        target: None,
        payload,
    };
    proof {
        assert(res@.payload =~= entity_upsert_record(*entity).payload);
        assert(res@ =~= entity_upsert_record(*entity));
    }
    res
}

/// What is recorded when an alias is written.
pub open spec fn alias_upsert_record(alias: EntityAlias) -> OperationView {
    OperationView {
        operation_type: "entity_alias_upsert"@,
        memory_id: None,
        source: None,
        target: None,
        payload: seq![
            ("entity_id"@, Datum::Text(alias.entity_id@)),
            ("alias"@, Datum::Text(alias.alias@)),
            ("source"@, text_or_null(opt_view(alias.source))),
            ("confidence"@, Datum::Real(alias.confidence)),
        ],
    }
}

/// What is recorded when an alias is written.
pub fn alias_upsert_operation(alias: &EntityAlias) -> (res: Operation)
    ensures
        res@ == alias_upsert_record(*alias),
{
    let mut payload: Vec<PayloadField> = Vec::new();
    payload.push(field("entity_id", text_field(alias.entity_id.as_str())));
    payload.push(field("alias", text_field(alias.alias.as_str())));
    payload.push(field("source", opt_text_field(&alias.source)));
    payload.push(field("confidence", Field::Real(alias.confidence)));
    let res = Operation {
        operation_type: "entity_alias_upsert",
        memory_id: None,
        source: None,
        target: None,
        payload,
    };
    proof {
        assert(res@.payload =~= alias_upsert_record(*alias).payload);
        assert(res@ =~= alias_upsert_record(*alias));
    }
    res
}

/// What is recorded when a memory is linked to an entity.
pub open spec fn memory_entity_upsert_record(link: MemoryEntityLink) -> OperationView {
    OperationView {
        operation_type: "memory_entity_link_upsert"@,
        memory_id: Some(link.memory_id),
        source: None,
        target: None,
        payload: seq![
            ("entity_id"@, Datum::Text(link.entity_id@)),
            ("role"@, text_or_null(opt_view(link.role))),
            ("confidence"@, Datum::Real(link.confidence)),
            ("evidence"@, text_or_null(opt_view(link.evidence))),
        ],
    }
}

/// What is recorded when a memory is linked to an entity.
pub fn memory_entity_upsert_operation(link: &MemoryEntityLink) -> (res: Operation)
    ensures
        res@ == memory_entity_upsert_record(*link),
{
    let mut payload: Vec<PayloadField> = Vec::new();
    payload.push(field("entity_id", text_field(link.entity_id.as_str())));
    payload.push(field("role", opt_text_field(&link.role)));
    payload.push(field("confidence", Field::Real(link.confidence)));
    payload.push(field("evidence", opt_text_field(&link.evidence)));
    let res = Operation {
        operation_type: "memory_entity_link_upsert",
        memory_id: Some(link.memory_id),
        source: None,
        target: None,
        payload,
    };
    proof {
        assert(res@.payload =~= memory_entity_upsert_record(*link).payload);
        assert(res@ =~= memory_entity_upsert_record(*link));
    }
    res
}

/// What is recorded when a conversation is written.
pub open spec fn conversation_upsert_record(conversation: ConversationRecord) -> OperationView {
    OperationView {
        operation_type: "conversation_upsert"@,
        memory_id: None,
        source: None,
        target: None,
        payload: seq![
            ("conversation_id"@, Datum::Text(conversation.conversation_id@)),
            ("title"@, text_or_null(opt_view(conversation.title))),
        ],
    }
}

/// What is recorded when a conversation is written.
pub fn conversation_upsert_operation(conversation: &ConversationRecord) -> (res: Operation)
    ensures
        res@ == conversation_upsert_record(*conversation),
{
    let mut payload: Vec<PayloadField> = Vec::new();
    payload.push(field("conversation_id", text_field(conversation.conversation_id.as_str())));
    payload.push(field("title", opt_text_field(&conversation.title)));
    let res = Operation {
        operation_type: "conversation_upsert",
        memory_id: None,
        source: None,
        target: None,
        payload,
    };
    proof {
        assert(res@.payload =~= conversation_upsert_record(*conversation).payload);
        assert(res@ =~= conversation_upsert_record(*conversation));
    }
    res
}

/// What is recorded when an event is written.
pub open spec fn event_upsert_record(event: ConversationEvent) -> OperationView {
    OperationView {
        operation_type: "conversation_event_upsert"@,
        memory_id: None,
        source: None,
        target: None,
        payload: seq![
            ("event_id"@, Datum::Text(event.event_id@)),
            ("conversation_id"@, Datum::Text(event.conversation_id@)),
            ("turn_id"@, text_or_null(opt_view(event.turn_id))),
            ("event_type"@, Datum::Text(event.event_type@)),
            ("actor_id"@, text_or_null(opt_view(event.actor_id))),
            ("observed_at"@, Datum::Count(event.observed_at)),
        ],
    }
}

/// What is recorded when an event is written.
pub fn event_upsert_operation(event: &ConversationEvent) -> (res: Operation)
    ensures
        res@ == event_upsert_record(*event),
{
    let mut payload: Vec<PayloadField> = Vec::new();
    payload.push(field("event_id", text_field(event.event_id.as_str())));
    payload.push(field("conversation_id", text_field(event.conversation_id.as_str())));
    payload.push(field("turn_id", opt_text_field(&event.turn_id)));
    payload.push(field("event_type", text_field(event.event_type.as_str())));
    payload.push(field("actor_id", opt_text_field(&event.actor_id)));
    payload.push(field("observed_at", Field::Count(event.observed_at)));
    let res = Operation {
        operation_type: "conversation_event_upsert",
        memory_id: None,
        source: None,
        target: None,
        payload,
    };
    proof {
        assert(res@.payload =~= event_upsert_record(*event).payload);
        assert(res@ =~= event_upsert_record(*event));
    }
    res
}

/// What is recorded when an extraction run is written.
pub open spec fn run_upsert_record(run: ExtractionRun) -> OperationView {
    OperationView {
        operation_type: "extraction_run_upsert"@,
        memory_id: run.source_memory_id,
        source: None,
        target: None,
        payload: seq![
            ("run_id"@, Datum::Text(run.run_id@)),
            ("conversation_id"@, text_or_null(opt_view(run.conversation_id))),
            ("extractor"@, Datum::Text(run.extractor@)),
            ("extractor_version"@, Datum::Text(run.extractor_version@)),
            ("model"@, text_or_null(opt_view(run.model))),
            ("prompt_hash"@, text_or_null(opt_view(run.prompt_hash))),
            ("config_hash"@, text_or_null(opt_view(run.config_hash))),
            ("status"@, Datum::Text(run.status@)),
        ],
    }
}

/// What is recorded when an extraction run is written.
pub fn run_upsert_operation(run: &ExtractionRun) -> (res: Operation)
    ensures
        res@ == run_upsert_record(*run),
{
    let mut payload: Vec<PayloadField> = Vec::new();
    payload.push(field("run_id", text_field(run.run_id.as_str())));
    payload.push(field("conversation_id", opt_text_field(&run.conversation_id)));
    payload.push(field("extractor", text_field(run.extractor.as_str())));
    payload.push(field("extractor_version", text_field(run.extractor_version.as_str())));
    payload.push(field("model", opt_text_field(&run.model)));
    payload.push(field("prompt_hash", opt_text_field(&run.prompt_hash)));
    payload.push(field("config_hash", opt_text_field(&run.config_hash)));
    payload.push(field("status", text_field(run.status.as_str())));
    let res = Operation {
        operation_type: "extraction_run_upsert",
        memory_id: run.source_memory_id,
        source: None,
        target: None,
        payload,
    };
    proof {
        assert(res@.payload =~= run_upsert_record(*run).payload);
        assert(res@ =~= run_upsert_record(*run));
    }
    res
}

/// What is recorded when a claim is written.
pub open spec fn claim_upsert_record(claim: ClaimRecord) -> OperationView {
    OperationView {
        operation_type: "claim_upsert"@,
        memory_id: None,
        source: None,
        target: None,
        payload: seq![
            ("claim_id"@, Datum::Text(claim.claim_id@)),
            ("claim_type"@, Datum::Text(claim.claim_type@)),
            ("subject_entity_id"@, text_or_null(opt_view(claim.subject_entity_id))),
            ("predicate"@, text_or_null(opt_view(claim.predicate))),
            ("object_entity_id"@, text_or_null(opt_view(claim.object_entity_id))),
            ("confidence"@, Datum::Real(claim.confidence)),
            ("status"@, Datum::Text(claim.status@)),
            ("source_run_id"@, text_or_null(opt_view(claim.source_run_id))),
        ],
    }
}

/// What is recorded when a claim is written.
pub fn claim_upsert_operation(claim: &ClaimRecord) -> (res: Operation)
    ensures
        res@ == claim_upsert_record(*claim),
{
    let mut payload: Vec<PayloadField> = Vec::new();
    payload.push(field("claim_id", text_field(claim.claim_id.as_str())));
    payload.push(field("claim_type", text_field(claim.claim_type.as_str())));
    payload.push(field("subject_entity_id", opt_text_field(&claim.subject_entity_id)));
    payload.push(field("predicate", opt_text_field(&claim.predicate)));
    payload.push(field("object_entity_id", opt_text_field(&claim.object_entity_id)));
    payload.push(field("confidence", Field::Real(claim.confidence)));
    payload.push(field("status", text_field(claim.status.as_str())));
    payload.push(field("source_run_id", opt_text_field(&claim.source_run_id)));
    let res = Operation {
        operation_type: "claim_upsert",
        memory_id: None,
        source: None,
        target: None,
        payload,
    };
    proof {
        assert(res@.payload =~= claim_upsert_record(*claim).payload);
        assert(res@ =~= claim_upsert_record(*claim));
    }
    res
}

/// What is recorded when a claim is linked to an entity.
pub open spec fn claim_entity_upsert_record(link: ClaimEntityLink) -> OperationView {
    OperationView {
        operation_type: "claim_entity_link_upsert"@,
        memory_id: None,
        source: None,
        target: None,
        payload: seq![
            ("claim_id"@, Datum::Text(link.claim_id@)),
            ("entity_id"@, Datum::Text(link.entity_id@)),
            ("role"@, Datum::Text(link.role@)),
            ("confidence"@, Datum::Real(link.confidence)),
        ],
    }
}

/// What is recorded when a claim is linked to an entity.
pub fn claim_entity_upsert_operation(link: &ClaimEntityLink) -> (res: Operation)
    ensures
        res@ == claim_entity_upsert_record(*link),
{
    let mut payload: Vec<PayloadField> = Vec::new();
    payload.push(field("claim_id", text_field(link.claim_id.as_str())));
    payload.push(field("entity_id", text_field(link.entity_id.as_str())));
    payload.push(field("role", text_field(link.role.as_str())));
    payload.push(field("confidence", Field::Real(link.confidence)));
    let res = Operation {
        operation_type: "claim_entity_link_upsert",
        memory_id: None,
        source: None,
        target: None,
        payload,
    };
    proof {
        assert(res@.payload =~= claim_entity_upsert_record(*link).payload);
        assert(res@ =~= claim_entity_upsert_record(*link));
    }
    res
}

/// What is recorded when evidence for a claim is written.
pub open spec fn claim_evidence_upsert_record(evidence: ClaimEvidence) -> OperationView {
    OperationView {
        operation_type: "claim_evidence_upsert"@,
        memory_id: Some(evidence.memory_id),
        source: None,
        target: None,
        payload: seq![
            ("evidence_id"@, Datum::Text(evidence.evidence_id@)),
            ("claim_id"@, Datum::Text(evidence.claim_id@)),
            ("source_id"@, text_or_null(opt_view(evidence.source_id))),
            ("confidence"@, Datum::Real(evidence.confidence)),
        ],
    }
}

/// What is recorded when evidence for a claim is written.
pub fn claim_evidence_upsert_operation(evidence: &ClaimEvidence) -> (res: Operation)
    ensures
        res@ == claim_evidence_upsert_record(*evidence),
{
    let mut payload: Vec<PayloadField> = Vec::new();
    payload.push(field("evidence_id", text_field(evidence.evidence_id.as_str())));
    payload.push(field("claim_id", text_field(evidence.claim_id.as_str())));
    payload.push(field("source_id", opt_text_field(&evidence.source_id)));
    payload.push(field("confidence", Field::Real(evidence.confidence)));
    let res = Operation {
        operation_type: "claim_evidence_upsert",
        memory_id: Some(evidence.memory_id),
        source: None,
        target: None,
        payload,
    };
    proof {
        assert(res@.payload =~= claim_evidence_upsert_record(*evidence).payload);
        assert(res@ =~= claim_evidence_upsert_record(*evidence));
    }
    res
}

/// What is recorded when a relationship is written.
pub open spec fn relationship_upsert_record(relationship: EntityRelationship) -> OperationView {
    OperationView {
        operation_type: "entity_relationship_upsert"@,
        memory_id: None,
        source: None,
        target: None,
        payload: seq![
            ("relationship_id"@, Datum::Text(relationship.relationship_id@)),
            ("source_entity_id"@, Datum::Text(relationship.source_entity_id@)),
            ("target_entity_id"@, Datum::Text(relationship.target_entity_id@)),
            ("relation_type"@, Datum::Text(relationship.relation_type@)),
            ("confidence"@, Datum::Real(relationship.confidence)),
            ("status"@, Datum::Text(relationship.status@)),
            ("source_run_id"@, text_or_null(opt_view(relationship.source_run_id))),
        ],
    }
}

/// What is recorded when a relationship is written.
pub fn relationship_upsert_operation(relationship: &EntityRelationship) -> (res: Operation)
    ensures
        res@ == relationship_upsert_record(*relationship),
{
    let mut payload: Vec<PayloadField> = Vec::new();
    payload.push(field("relationship_id", text_field(relationship.relationship_id.as_str())));
    payload.push(field("source_entity_id", text_field(relationship.source_entity_id.as_str())));
    payload.push(field("target_entity_id", text_field(relationship.target_entity_id.as_str())));
    payload.push(field("relation_type", text_field(relationship.relation_type.as_str())));
    payload.push(field("confidence", Field::Real(relationship.confidence)));
    payload.push(field("status", text_field(relationship.status.as_str())));
    payload.push(field("source_run_id", opt_text_field(&relationship.source_run_id)));
    let res = Operation {
        operation_type: "entity_relationship_upsert",
        memory_id: None,
        source: None,
        target: None,
        payload,
    };
    proof {
        assert(res@.payload =~= relationship_upsert_record(*relationship).payload);
        assert(res@ =~= relationship_upsert_record(*relationship));
    }
    res
}

/// What is recorded when evidence for a relationship is written.
pub open spec fn relationship_evidence_upsert_record(evidence: RelationshipEvidence) -> OperationView {
    OperationView {
        operation_type: "relationship_evidence_upsert"@,
        memory_id: Some(evidence.memory_id),
        source: None,
        target: None,
        payload: seq![
            ("evidence_id"@, Datum::Text(evidence.evidence_id@)),
            ("relationship_id"@, Datum::Text(evidence.relationship_id@)),
            ("source_id"@, text_or_null(opt_view(evidence.source_id))),
            ("confidence"@, Datum::Real(evidence.confidence)),
        ],
    }
}

/// What is recorded when evidence for a relationship is written.
pub fn relationship_evidence_upsert_operation(evidence: &RelationshipEvidence) -> (res: Operation)
    ensures
        res@ == relationship_evidence_upsert_record(*evidence),
{
    let mut payload: Vec<PayloadField> = Vec::new();
    payload.push(field("evidence_id", text_field(evidence.evidence_id.as_str())));
    payload.push(field("relationship_id", text_field(evidence.relationship_id.as_str())));
    payload.push(field("source_id", opt_text_field(&evidence.source_id)));
    payload.push(field("confidence", Field::Real(evidence.confidence)));
    let res = Operation {
        operation_type: "relationship_evidence_upsert",
        memory_id: Some(evidence.memory_id),
        source: None,
        target: None,
        payload,
    };
    proof {
        assert(res@.payload =~= relationship_evidence_upsert_record(*evidence).payload);
        assert(res@ =~= relationship_evidence_upsert_record(*evidence));
    }
    res
}

/// What is recorded when the entity links of a memory are replaced.
pub open spec fn links_replace_record(id: MemoryId, entities: usize, aliases: usize, links: usize) -> OperationView {
    OperationView {
        operation_type: "memory_entity_links_replace"@,
        memory_id: Some(id),
        source: None,
        target: None,
        payload: seq![
            ("entity_count"@, Datum::Count(entities as u64)),
            ("alias_count"@, Datum::Count(aliases as u64)),
            ("link_count"@, Datum::Count(links as u64)),
        ],
    }
}

/// What is recorded when the entity links of a memory are replaced.
pub fn links_replace_operation(id: MemoryId, entities: usize, aliases: usize, links: usize) -> (res: Operation)
    ensures
        res@ == links_replace_record(id, entities, aliases, links),
{
    let mut payload: Vec<PayloadField> = Vec::new();
    payload.push(field("entity_count", Field::Count(entities as u64)));
    payload.push(field("alias_count", Field::Count(aliases as u64)));
    payload.push(field("link_count", Field::Count(links as u64)));
    let res = Operation {
        operation_type: "memory_entity_links_replace",
        memory_id: Some(id),
        source: None,
        target: None,
        payload,
    };
    proof {
        assert(res@.payload =~= links_replace_record(id, entities, aliases, links).payload);
        assert(res@ =~= links_replace_record(id, entities, aliases, links));
    }
    res
}

/// What is recorded when the artifacts of a run are written.
pub open spec fn artifacts_persist_record(run: ExtractionRun, claims: usize, claim_entities: usize, claim_evidence: usize, relationships: usize, relationship_evidence: usize) -> OperationView {
    OperationView {
        operation_type: "extraction_artifacts_persist"@,
        memory_id: run.source_memory_id,
        source: None,
        target: None,
        payload: seq![
            ("run_id"@, Datum::Text(run.run_id@)),
            ("claim_count"@, Datum::Count(claims as u64)),
            ("claim_entity_count"@, Datum::Count(claim_entities as u64)),
            ("claim_evidence_count"@, Datum::Count(claim_evidence as u64)),
            ("relationship_count"@, Datum::Count(relationships as u64)),
            ("relationship_evidence_count"@, Datum::Count(relationship_evidence as u64)),
        ],
    }
}

/// What is recorded when the artifacts of a run are written.
pub fn artifacts_persist_operation(run: &ExtractionRun, claims: usize, claim_entities: usize, claim_evidence: usize, relationships: usize, relationship_evidence: usize) -> (res: Operation)
    ensures
        res@ == artifacts_persist_record(*run, claims, claim_entities, claim_evidence, relationships, relationship_evidence),
{
    let mut payload: Vec<PayloadField> = Vec::new();
    payload.push(field("run_id", text_field(run.run_id.as_str())));
    payload.push(field("claim_count", Field::Count(claims as u64)));
    payload.push(field("claim_entity_count", Field::Count(claim_entities as u64)));
    payload.push(field("claim_evidence_count", Field::Count(claim_evidence as u64)));
    payload.push(field("relationship_count", Field::Count(relationships as u64)));
    payload.push(field("relationship_evidence_count", Field::Count(relationship_evidence as u64)));
    let res = Operation {
        operation_type: "extraction_artifacts_persist",
        memory_id: run.source_memory_id,
        source: None,
        target: None,
        payload,
    };
    proof {
        assert(res@.payload =~= artifacts_persist_record(*run, claims, claim_entities, claim_evidence, relationships, relationship_evidence).payload);
        assert(res@ =~= artifacts_persist_record(*run, claims, claim_entities, claim_evidence, relationships, relationship_evidence));
    }
    res
}

} // verus!
