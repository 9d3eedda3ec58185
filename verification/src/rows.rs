//! How the records stand in the tables: the columns of a row, and back.
use crate::codec::{
    opt_signed, opt_time_from_column, opt_time_to_column, opt_unsigned, signed_bits,
    time_from_column, time_to_column, unsigned_bits,
};
use crate::float::Single;
use crate::ids::{
    id_or_nil, id_text, law_uuid_round_trip, opt_id_text, parse_id_or_nil, parse_optional_memory_id,
    uuid_text, uuid_value,
};
use crate::memory::MemoryId;
use crate::records::{
    ClaimEvidence, ClaimEvidenceView, ClaimRecord, ClaimView, ConversationEvent, EntityColumns,
    EntityRecord, EntityRelationship, EventView, ExtractionRun, ExtractionView, LinkColumns,
    MemoryEntityLink, MemorySource, RelationshipEvidence, RelationshipEvidenceView,
    RelationshipView, SourceView,
};
use crate::text::{copy_opt, copy_text, opt_view};
use crate::writes::{opt_id_string, role_column, role_column_of, role_from_column, role_of};
use vstd::prelude::*;

verus! {

/// Whether an optional identity is what a column holds: what is absent or no
/// UUID is none.
pub open spec fn opt_id_read(column: Option<Seq<char>>, id: Option<MemoryId>) -> bool {
    match id {
        Some(i) => column is Some && uuid_value(column->0) == Some(i.value as int),
        None => column is None || uuid_value(column->0) is None,
    }
}

// ---------------------------------------------------------------------------
// Sources
// ---------------------------------------------------------------------------
/// The columns of a source record.
#[derive(Debug)]
pub struct SourceRow {
    pub source_id: String,
    pub memory_id: String,
    pub source_type: String,
    pub conversation_id: Option<String>,
    pub turn_id: Option<String>,
    pub actor_id: Option<String>,
    pub observed_at: Option<i64>,
    pub extractor: Option<String>,
    pub extractor_hash: Option<String>,
    pub prompt_hash: Option<String>,
    pub payload_json: String,
    pub created_at: i64,
}

/// Whether a row is that of a source record.
pub open spec fn source_stored(x: SourceView, row: SourceRow) -> bool {
    &&& row.source_id@ == x.source_id
    &&& row.memory_id@ == uuid_text(x.memory_id.value)
    &&& row.source_type@ == x.source_type
    &&& opt_view(row.conversation_id) == x.conversation_id
    &&& opt_view(row.turn_id) == x.turn_id
    &&& opt_view(row.actor_id) == x.actor_id
    &&& row.observed_at == opt_signed(x.observed_at)
    &&& opt_view(row.extractor) == x.extractor
    &&& opt_view(row.extractor_hash) == x.extractor_hash
    &&& opt_view(row.prompt_hash) == x.prompt_hash
    &&& row.payload_json@ == x.payload_json
    &&& row.created_at == signed_bits(x.created_at)
}

/// Whether a source record is what a row holds.
pub open spec fn source_read(row: SourceRow, x: SourceView) -> bool {
    &&& x.source_id == row.source_id@
    &&& x.memory_id.value == id_or_nil(row.memory_id@)
    &&& x.source_type == row.source_type@
    &&& x.conversation_id == opt_view(row.conversation_id)
    &&& x.turn_id == opt_view(row.turn_id)
    &&& x.actor_id == opt_view(row.actor_id)
    &&& x.observed_at == opt_unsigned(row.observed_at)
    &&& x.extractor == opt_view(row.extractor)
    &&& x.extractor_hash == opt_view(row.extractor_hash)
    &&& x.prompt_hash == opt_view(row.prompt_hash)
    &&& x.payload_json == row.payload_json@
    &&& x.created_at == unsigned_bits(row.created_at)
}

/// The row of a source record.
pub fn encode_source(x: &MemorySource) -> (res: SourceRow)
    ensures
        source_stored(x@, res),
{
    SourceRow {
        source_id: copy_text(x.source_id.as_str()),
        memory_id: id_text(&x.memory_id),
        source_type: copy_text(x.source_type.as_str()),
        conversation_id: copy_opt(&x.conversation_id),
        turn_id: copy_opt(&x.turn_id),
        actor_id: copy_opt(&x.actor_id),
        observed_at: opt_time_to_column(x.observed_at),
        extractor: copy_opt(&x.extractor),
        extractor_hash: copy_opt(&x.extractor_hash),
        prompt_hash: copy_opt(&x.prompt_hash),
        payload_json: copy_text(x.payload_json.as_str()),
        created_at: time_to_column(x.created_at),
    }
}

/// Reads a source record from its row.
pub fn decode_source(row: SourceRow) -> (res: MemorySource)
    ensures
        source_read(row, res@),
{
    MemorySource {
        source_id: row.source_id,
        memory_id: parse_id_or_nil(row.memory_id.as_str()),
        source_type: row.source_type,
        conversation_id: row.conversation_id,
        turn_id: row.turn_id,
        actor_id: row.actor_id,
        observed_at: opt_time_from_column(row.observed_at),
        extractor: row.extractor,
        extractor_hash: row.extractor_hash,
        prompt_hash: row.prompt_hash,
        payload_json: row.payload_json,
        created_at: time_from_column(row.created_at),
    }
}

/// A source record survives its row.
pub proof fn law_source_round_trip(x: SourceView, row: SourceRow, y: SourceView)
    requires
        source_stored(x, row),
        source_read(row, y),
    ensures
        y == x,
{
    law_uuid_round_trip(x.memory_id.value);
    assert(y =~= x);
}

// ---------------------------------------------------------------------------
// Entities
// ---------------------------------------------------------------------------
/// The columns of an entity.
#[derive(Debug)]
pub struct EntityRow {
    pub entity_id: String,
    pub entity_type: String,
    pub canonical: String,
    pub attributes_json: String,
    pub confidence: Single,
    pub created_at: i64,
    pub updated_at: i64,
}

/// Whether a row is that of an entity.
pub open spec fn entity_stored(x: EntityColumns, row: EntityRow) -> bool {
    &&& row.entity_id@ == x.entity_id
    &&& row.entity_type@ == x.entity_type
    &&& row.canonical@ == x.canonical
    &&& row.attributes_json@ == x.attributes_json
    &&& row.confidence == x.confidence
    &&& row.created_at == signed_bits(x.created_at)
    &&& row.updated_at == signed_bits(x.updated_at)
}

/// Whether an entity is what a row holds.
pub open spec fn entity_read(row: EntityRow, x: EntityColumns) -> bool {
    &&& x.entity_id == row.entity_id@
    &&& x.entity_type == row.entity_type@
    &&& x.canonical == row.canonical@
    &&& x.attributes_json == row.attributes_json@
    &&& x.confidence == row.confidence
    &&& x.created_at == unsigned_bits(row.created_at)
    &&& x.updated_at == unsigned_bits(row.updated_at)
}

/// The row of an entity.
pub fn encode_entity(x: &EntityRecord) -> (res: EntityRow)
    ensures
        entity_stored(x@, res),
{
    EntityRow {
        entity_id: copy_text(x.entity_id.as_str()),
        entity_type: copy_text(x.entity_type.as_str()),
        canonical: copy_text(x.canonical.as_str()),
        attributes_json: copy_text(x.attributes_json.as_str()),
        confidence: x.confidence,
        created_at: time_to_column(x.created_at),
        updated_at: time_to_column(x.updated_at),
    }
}

/// Reads an entity from its row.
pub fn decode_entity(row: EntityRow) -> (res: EntityRecord)
    ensures
        entity_read(row, res@),
{
    EntityRecord {
        entity_id: row.entity_id,
        entity_type: row.entity_type,
        canonical: row.canonical,
        attributes_json: row.attributes_json,
        confidence: row.confidence,
        created_at: time_from_column(row.created_at),
        updated_at: time_from_column(row.updated_at),
    }
}

/// An entity survives its row.
pub proof fn law_entity_round_trip(x: EntityColumns, row: EntityRow, y: EntityColumns)
    requires
        entity_stored(x, row),
        entity_read(row, y),
    ensures
        y == x,
{
    assert(y =~= x);
}

// ---------------------------------------------------------------------------
// Entity links
// ---------------------------------------------------------------------------
/// The columns of the link of a memory to an entity.
#[derive(Debug)]
pub struct LinkRow {
    pub memory_id: String,
    pub entity_id: String,
    pub role: String,
    pub confidence: Single,
    pub evidence: Option<String>,
}

/// Whether a row is that of the link of a memory to an entity.
pub open spec fn link_stored(x: LinkColumns, row: LinkRow) -> bool {
    &&& row.memory_id@ == uuid_text(x.memory_id.value)
    &&& row.entity_id@ == x.entity_id
    &&& row.role@ == role_column_of(x.role)
    &&& row.confidence == x.confidence
    &&& opt_view(row.evidence) == x.evidence
}

/// Whether the link of a memory to an entity is what a row holds.
pub open spec fn link_read(row: LinkRow, x: LinkColumns) -> bool {
    &&& x.memory_id.value == id_or_nil(row.memory_id@)
    &&& x.entity_id == row.entity_id@
    &&& x.role == role_of(row.role@)
    &&& x.confidence == row.confidence
    &&& x.evidence == opt_view(row.evidence)
}

/// The row of the link of a memory to an entity.
pub fn encode_link(x: &MemoryEntityLink) -> (res: LinkRow)
    ensures
        link_stored(x@, res),
{
    LinkRow {
        memory_id: id_text(&x.memory_id),
        entity_id: copy_text(x.entity_id.as_str()),
        role: role_column(&x.role),
        confidence: x.confidence,
        evidence: copy_opt(&x.evidence),
    }
}

/// Reads the link of a memory to an entity from its row.
pub fn decode_link(row: LinkRow) -> (res: MemoryEntityLink)
    ensures
        link_read(row, res@),
{
    MemoryEntityLink {
        memory_id: parse_id_or_nil(row.memory_id.as_str()),
        entity_id: row.entity_id,
        role: role_from_column(row.role),
        confidence: row.confidence,
        evidence: row.evidence,
    }
}

/// The link of a memory to an entity survives its row, unless its role is
/// the empty text, which reads as no role.
pub proof fn law_link_round_trip(x: LinkColumns, row: LinkRow, y: LinkColumns)
    requires
        link_stored(x, row),
        link_read(row, y),
        x.role is Some ==> x.role->0.len() > 0,
    ensures
        y == x,
{
    law_uuid_round_trip(x.memory_id.value);
    assert(y =~= x);
}

// ---------------------------------------------------------------------------
// Events
// ---------------------------------------------------------------------------
/// The columns of an event of a conversation.
#[derive(Debug)]
pub struct EventRow {
    pub event_id: String,
    pub conversation_id: String,
    pub turn_id: Option<String>,
    pub event_type: String,
    pub actor_id: Option<String>,
    pub content: Option<String>,
    pub payload_json: String,
    pub observed_at: i64,
    pub created_at: i64,
}

/// Whether a row is that of an event of a conversation.
pub open spec fn event_stored(x: EventView, row: EventRow) -> bool {
    &&& row.event_id@ == x.event_id
    &&& row.conversation_id@ == x.conversation_id
    &&& opt_view(row.turn_id) == x.turn_id
    &&& row.event_type@ == x.event_type
    &&& opt_view(row.actor_id) == x.actor_id
    &&& opt_view(row.content) == x.content
    &&& row.payload_json@ == x.payload_json
    &&& row.observed_at == signed_bits(x.observed_at)
    &&& row.created_at == signed_bits(x.created_at)
}

/// Whether an event of a conversation is what a row holds.
pub open spec fn event_read(row: EventRow, x: EventView) -> bool {
    &&& x.event_id == row.event_id@
    &&& x.conversation_id == row.conversation_id@
    &&& x.turn_id == opt_view(row.turn_id)
    &&& x.event_type == row.event_type@
    &&& x.actor_id == opt_view(row.actor_id)
    &&& x.content == opt_view(row.content)
    &&& x.payload_json == row.payload_json@
    &&& x.observed_at == unsigned_bits(row.observed_at)
    &&& x.created_at == unsigned_bits(row.created_at)
}

/// The row of an event of a conversation.
pub fn encode_event(x: &ConversationEvent) -> (res: EventRow)
    ensures
        event_stored(x@, res),
{
    EventRow {
        event_id: copy_text(x.event_id.as_str()),
        conversation_id: copy_text(x.conversation_id.as_str()),
        turn_id: copy_opt(&x.turn_id),
        event_type: copy_text(x.event_type.as_str()),
        actor_id: copy_opt(&x.actor_id),
        content: copy_opt(&x.content),
        payload_json: copy_text(x.payload_json.as_str()),
        observed_at: time_to_column(x.observed_at),
        created_at: time_to_column(x.created_at),
    }
}

/// Reads an event of a conversation from its row.
pub fn decode_event(row: EventRow) -> (res: ConversationEvent)
    ensures
        event_read(row, res@),
{
    ConversationEvent {
        event_id: row.event_id,
        conversation_id: row.conversation_id,
        turn_id: row.turn_id,
        event_type: row.event_type,
        actor_id: row.actor_id,
        content: row.content,
        payload_json: row.payload_json,
        observed_at: time_from_column(row.observed_at),
        created_at: time_from_column(row.created_at),
    }
}

/// An event of a conversation survives its row.
pub proof fn law_event_round_trip(x: EventView, row: EventRow, y: EventView)
    requires
        event_stored(x, row),
        event_read(row, y),
    ensures
        y == x,
{
    assert(y =~= x);
}

// ---------------------------------------------------------------------------
// Extraction runs
// ---------------------------------------------------------------------------
/// The columns of an extraction run.
#[derive(Debug)]
pub struct RunRow {
    pub run_id: String,
    pub source_memory_id: Option<String>,
    pub conversation_id: Option<String>,
    pub extractor: String,
    pub extractor_version: String,
    pub model: Option<String>,
    pub prompt_hash: Option<String>,
    pub config_hash: Option<String>,
    pub status: String,
    pub error: Option<String>,
    pub output_json: String,
    pub started_at: i64,
    pub completed_at: Option<i64>,
}

/// Whether a row is that of an extraction run.
pub open spec fn run_stored(x: ExtractionView, row: RunRow) -> bool {
    &&& row.run_id@ == x.run_id
    &&& opt_view(row.source_memory_id) == opt_id_text(x.source_memory_id)
    &&& opt_view(row.conversation_id) == x.conversation_id
    &&& row.extractor@ == x.extractor
    &&& row.extractor_version@ == x.extractor_version
    &&& opt_view(row.model) == x.model
    &&& opt_view(row.prompt_hash) == x.prompt_hash
    &&& opt_view(row.config_hash) == x.config_hash
    &&& row.status@ == x.status
    &&& opt_view(row.error) == x.error
    &&& row.output_json@ == x.output_json
    &&& row.started_at == signed_bits(x.started_at)
    &&& row.completed_at == opt_signed(x.completed_at)
}

/// Whether an extraction run is what a row holds.
pub open spec fn run_read(row: RunRow, x: ExtractionView) -> bool {
    &&& x.run_id == row.run_id@
    &&& opt_id_read(opt_view(row.source_memory_id), x.source_memory_id)
    &&& x.conversation_id == opt_view(row.conversation_id)
    &&& x.extractor == row.extractor@
    &&& x.extractor_version == row.extractor_version@
    &&& x.model == opt_view(row.model)
    &&& x.prompt_hash == opt_view(row.prompt_hash)
    &&& x.config_hash == opt_view(row.config_hash)
    &&& x.status == row.status@
    &&& x.error == opt_view(row.error)
    &&& x.output_json == row.output_json@
    &&& x.started_at == unsigned_bits(row.started_at)
    &&& x.completed_at == opt_unsigned(row.completed_at)
}

/// The row of an extraction run.
pub fn encode_run(x: &ExtractionRun) -> (res: RunRow)
    ensures
        run_stored(x@, res),
{
    RunRow {
        run_id: copy_text(x.run_id.as_str()),
        source_memory_id: opt_id_string(x.source_memory_id),
        conversation_id: copy_opt(&x.conversation_id),
        extractor: copy_text(x.extractor.as_str()),
        extractor_version: copy_text(x.extractor_version.as_str()),
        model: copy_opt(&x.model),
        prompt_hash: copy_opt(&x.prompt_hash),
        config_hash: copy_opt(&x.config_hash),
        status: copy_text(x.status.as_str()),
        error: copy_opt(&x.error),
        output_json: copy_text(x.output_json.as_str()),
        started_at: time_to_column(x.started_at),
        completed_at: opt_time_to_column(x.completed_at),
    }
}

/// Reads an extraction run from its row.
pub fn decode_run(row: RunRow) -> (res: ExtractionRun)
    ensures
        run_read(row, res@),
{
    ExtractionRun {
        run_id: row.run_id,
        source_memory_id: parse_optional_memory_id(&row.source_memory_id),
        conversation_id: row.conversation_id,
        extractor: row.extractor,
        extractor_version: row.extractor_version,
        model: row.model,
        prompt_hash: row.prompt_hash,
        config_hash: row.config_hash,
        status: row.status,
        error: row.error,
        output_json: row.output_json,
        started_at: time_from_column(row.started_at),
        completed_at: opt_time_from_column(row.completed_at),
    }
}

/// An extraction run survives its row.
pub proof fn law_run_round_trip(x: ExtractionView, row: RunRow, y: ExtractionView)
    requires
        run_stored(x, row),
        run_read(row, y),
    ensures
        y == x,
{
    if let Some(id) = x.source_memory_id {
        law_uuid_round_trip(id.value);
    }
    assert(y =~= x);
}

// ---------------------------------------------------------------------------
// Claims
// ---------------------------------------------------------------------------
/// The columns of a claim.
#[derive(Debug)]
pub struct ClaimRow {
    pub claim_id: String,
    pub claim_text: String,
    pub claim_type: String,
    pub subject_entity_id: Option<String>,
    pub predicate: Option<String>,
    pub object_entity_id: Option<String>,
    pub confidence: Single,
    pub status: String,
    pub valid_from: Option<i64>,
    pub valid_until: Option<i64>,
    pub attributes_json: String,
    pub source_run_id: Option<String>,
    pub created_at: i64,
    pub updated_at: i64,
}

/// Whether a row is that of a claim.
pub open spec fn claim_stored(x: ClaimView, row: ClaimRow) -> bool {
    &&& row.claim_id@ == x.claim_id
    &&& row.claim_text@ == x.claim_text
    &&& row.claim_type@ == x.claim_type
    &&& opt_view(row.subject_entity_id) == x.subject_entity_id
    &&& opt_view(row.predicate) == x.predicate
    &&& opt_view(row.object_entity_id) == x.object_entity_id
    &&& row.confidence == x.confidence
    &&& row.status@ == x.status
    &&& row.valid_from == opt_signed(x.valid_from)
    &&& row.valid_until == opt_signed(x.valid_until)
    &&& row.attributes_json@ == x.attributes_json
    &&& opt_view(row.source_run_id) == x.source_run_id
    &&& row.created_at == signed_bits(x.created_at)
    &&& row.updated_at == signed_bits(x.updated_at)
}

/// Whether a claim is what a row holds.
pub open spec fn claim_read(row: ClaimRow, x: ClaimView) -> bool {
    &&& x.claim_id == row.claim_id@
    &&& x.claim_text == row.claim_text@
    &&& x.claim_type == row.claim_type@
    &&& x.subject_entity_id == opt_view(row.subject_entity_id)
    &&& x.predicate == opt_view(row.predicate)
    &&& x.object_entity_id == opt_view(row.object_entity_id)
    &&& x.confidence == row.confidence
    &&& x.status == row.status@
    &&& x.valid_from == opt_unsigned(row.valid_from)
    &&& x.valid_until == opt_unsigned(row.valid_until)
    &&& x.attributes_json == row.attributes_json@
    &&& x.source_run_id == opt_view(row.source_run_id)
    &&& x.created_at == unsigned_bits(row.created_at)
    &&& x.updated_at == unsigned_bits(row.updated_at)
}

/// The row of a claim.
pub fn encode_claim(x: &ClaimRecord) -> (res: ClaimRow)
    ensures
        claim_stored(x@, res),
{
    ClaimRow {
        claim_id: copy_text(x.claim_id.as_str()),
        claim_text: copy_text(x.claim_text.as_str()),
        claim_type: copy_text(x.claim_type.as_str()),
        subject_entity_id: copy_opt(&x.subject_entity_id),
        predicate: copy_opt(&x.predicate),
        object_entity_id: copy_opt(&x.object_entity_id),
        confidence: x.confidence,
        status: copy_text(x.status.as_str()),
        valid_from: opt_time_to_column(x.valid_from),
        valid_until: opt_time_to_column(x.valid_until),
        attributes_json: copy_text(x.attributes_json.as_str()),
        source_run_id: copy_opt(&x.source_run_id),
        created_at: time_to_column(x.created_at),
        updated_at: time_to_column(x.updated_at),
    }
}

/// Reads a claim from its row.
pub fn decode_claim(row: ClaimRow) -> (res: ClaimRecord)
    ensures
        claim_read(row, res@),
{
    ClaimRecord {
        claim_id: row.claim_id,
        claim_text: row.claim_text,
        claim_type: row.claim_type,
        subject_entity_id: row.subject_entity_id,
        predicate: row.predicate,
        object_entity_id: row.object_entity_id,
        confidence: row.confidence,
        status: row.status,
        valid_from: opt_time_from_column(row.valid_from),
        valid_until: opt_time_from_column(row.valid_until),
        attributes_json: row.attributes_json,
        source_run_id: row.source_run_id,
        created_at: time_from_column(row.created_at),
        updated_at: time_from_column(row.updated_at),
    }
}

/// A claim survives its row.
pub proof fn law_claim_round_trip(x: ClaimView, row: ClaimRow, y: ClaimView)
    requires
        claim_stored(x, row),
        claim_read(row, y),
    ensures
        y == x,
{
    assert(y =~= x);
}

// ---------------------------------------------------------------------------
// Evidence for claims
// ---------------------------------------------------------------------------
/// The columns of the evidence for a claim.
#[derive(Debug)]
pub struct ClaimEvidenceRow {
    pub evidence_id: String,
    pub claim_id: String,
    pub memory_id: String,
    pub source_id: Option<String>,
    pub evidence_text: Option<String>,
    pub span_start: Option<i64>,
    pub span_end: Option<i64>,
    pub confidence: Single,
    pub created_at: i64,
}

/// Whether a row is that of the evidence for a claim.
pub open spec fn claim_evidence_stored(x: ClaimEvidenceView, row: ClaimEvidenceRow) -> bool {
    &&& row.evidence_id@ == x.evidence_id
    &&& row.claim_id@ == x.claim_id
    &&& row.memory_id@ == uuid_text(x.memory_id.value)
    &&& opt_view(row.source_id) == x.source_id
    &&& opt_view(row.evidence_text) == x.evidence_text
    &&& row.span_start == x.span_start
    &&& row.span_end == x.span_end
    &&& row.confidence == x.confidence
    &&& row.created_at == signed_bits(x.created_at)
}

/// Whether the evidence for a claim is what a row holds.
pub open spec fn claim_evidence_read(row: ClaimEvidenceRow, x: ClaimEvidenceView) -> bool {
    &&& x.evidence_id == row.evidence_id@
    &&& x.claim_id == row.claim_id@
    &&& x.memory_id.value == id_or_nil(row.memory_id@)
    &&& x.source_id == opt_view(row.source_id)
    &&& x.evidence_text == opt_view(row.evidence_text)
    &&& x.span_start == row.span_start
    &&& x.span_end == row.span_end
    &&& x.confidence == row.confidence
    &&& x.created_at == unsigned_bits(row.created_at)
}

/// The row of the evidence for a claim.
pub fn encode_claim_evidence(x: &ClaimEvidence) -> (res: ClaimEvidenceRow)
    ensures
        claim_evidence_stored(x@, res),
{
    ClaimEvidenceRow {
        evidence_id: copy_text(x.evidence_id.as_str()),
        claim_id: copy_text(x.claim_id.as_str()),
        memory_id: id_text(&x.memory_id),
        source_id: copy_opt(&x.source_id),
        evidence_text: copy_opt(&x.evidence_text),
        span_start: x.span_start,
        span_end: x.span_end,
        confidence: x.confidence,
        created_at: time_to_column(x.created_at),
    }
}

/// Reads the evidence for a claim from its row.
pub fn decode_claim_evidence(row: ClaimEvidenceRow) -> (res: ClaimEvidence)
    ensures
        claim_evidence_read(row, res@),
{
    ClaimEvidence {
        evidence_id: row.evidence_id,
        claim_id: row.claim_id,
        memory_id: parse_id_or_nil(row.memory_id.as_str()),
        source_id: row.source_id,
        evidence_text: row.evidence_text,
        span_start: row.span_start,
        span_end: row.span_end,
        confidence: row.confidence,
        created_at: time_from_column(row.created_at),
    }
}

/// The evidence for a claim survives its row.
pub proof fn law_claim_evidence_round_trip(x: ClaimEvidenceView, row: ClaimEvidenceRow, y: ClaimEvidenceView)
    requires
        claim_evidence_stored(x, row),
        claim_evidence_read(row, y),
    ensures
        y == x,
{
    law_uuid_round_trip(x.memory_id.value);
    assert(y =~= x);
}

// ---------------------------------------------------------------------------
// Relationships
// ---------------------------------------------------------------------------
/// The columns of a relationship.
#[derive(Debug)]
pub struct RelationshipRow {
    pub relationship_id: String,
    pub source_entity_id: String,
    pub target_entity_id: String,
    pub relation_type: String,
    pub confidence: Single,
    pub status: String,
    pub valid_from: Option<i64>,
    pub valid_until: Option<i64>,
    pub attributes_json: String,
    pub source_run_id: Option<String>,
    pub created_at: i64,
    pub updated_at: i64,
}

/// Whether a row is that of a relationship.
pub open spec fn relationship_stored(x: RelationshipView, row: RelationshipRow) -> bool {
    &&& row.relationship_id@ == x.relationship_id
    &&& row.source_entity_id@ == x.source_entity_id
    &&& row.target_entity_id@ == x.target_entity_id
    &&& row.relation_type@ == x.relation_type
    &&& row.confidence == x.confidence
    &&& row.status@ == x.status
    &&& row.valid_from == opt_signed(x.valid_from)
    &&& row.valid_until == opt_signed(x.valid_until)
    &&& row.attributes_json@ == x.attributes_json
    &&& opt_view(row.source_run_id) == x.source_run_id
    &&& row.created_at == signed_bits(x.created_at)
    &&& row.updated_at == signed_bits(x.updated_at)
}

/// Whether a relationship is what a row holds.
pub open spec fn relationship_read(row: RelationshipRow, x: RelationshipView) -> bool {
    &&& x.relationship_id == row.relationship_id@
    &&& x.source_entity_id == row.source_entity_id@
    &&& x.target_entity_id == row.target_entity_id@
    &&& x.relation_type == row.relation_type@
    &&& x.confidence == row.confidence
    &&& x.status == row.status@
    &&& x.valid_from == opt_unsigned(row.valid_from)
    &&& x.valid_until == opt_unsigned(row.valid_until)
    &&& x.attributes_json == row.attributes_json@
    &&& x.source_run_id == opt_view(row.source_run_id)
    &&& x.created_at == unsigned_bits(row.created_at)
    &&& x.updated_at == unsigned_bits(row.updated_at)
}

/// The row of a relationship.
pub fn encode_relationship(x: &EntityRelationship) -> (res: RelationshipRow)
    ensures
        relationship_stored(x@, res),
{
    RelationshipRow {
        relationship_id: copy_text(x.relationship_id.as_str()),
        source_entity_id: copy_text(x.source_entity_id.as_str()),
        target_entity_id: copy_text(x.target_entity_id.as_str()),
        relation_type: copy_text(x.relation_type.as_str()),
        confidence: x.confidence,
        status: copy_text(x.status.as_str()),
        valid_from: opt_time_to_column(x.valid_from),
        valid_until: opt_time_to_column(x.valid_until),
        attributes_json: copy_text(x.attributes_json.as_str()),
        source_run_id: copy_opt(&x.source_run_id),
        created_at: time_to_column(x.created_at),
        updated_at: time_to_column(x.updated_at),
    }
}

/// Reads a relationship from its row.
pub fn decode_relationship(row: RelationshipRow) -> (res: EntityRelationship)
    ensures
        relationship_read(row, res@),
{
    EntityRelationship {
        relationship_id: row.relationship_id,
        source_entity_id: row.source_entity_id,
        target_entity_id: row.target_entity_id,
        relation_type: row.relation_type,
        confidence: row.confidence,
        status: row.status,
        valid_from: opt_time_from_column(row.valid_from),
        valid_until: opt_time_from_column(row.valid_until),
        attributes_json: row.attributes_json,
        source_run_id: row.source_run_id,
        created_at: time_from_column(row.created_at),
        updated_at: time_from_column(row.updated_at),
    }
}

/// A relationship survives its row.
pub proof fn law_relationship_round_trip(x: RelationshipView, row: RelationshipRow, y: RelationshipView)
    requires
        relationship_stored(x, row),
        relationship_read(row, y),
    ensures
        y == x,
{
    assert(y =~= x);
}

// ---------------------------------------------------------------------------
// Evidence for relationships
// ---------------------------------------------------------------------------
/// The columns of the evidence for a relationship.
#[derive(Debug)]
pub struct RelationshipEvidenceRow {
    pub evidence_id: String,
    pub relationship_id: String,
    pub memory_id: String,
    pub source_id: Option<String>,
    pub evidence_text: Option<String>,
    pub span_start: Option<i64>,
    pub span_end: Option<i64>,
    pub confidence: Single,
    pub created_at: i64,
}

/// Whether a row is that of the evidence for a relationship.
pub open spec fn relationship_evidence_stored(x: RelationshipEvidenceView, row: RelationshipEvidenceRow) -> bool {
    &&& row.evidence_id@ == x.evidence_id
    &&& row.relationship_id@ == x.relationship_id
    &&& row.memory_id@ == uuid_text(x.memory_id.value)
    &&& opt_view(row.source_id) == x.source_id
    &&& opt_view(row.evidence_text) == x.evidence_text
    &&& row.span_start == x.span_start
    &&& row.span_end == x.span_end
    &&& row.confidence == x.confidence
    &&& row.created_at == signed_bits(x.created_at)
}

/// Whether the evidence for a relationship is what a row holds.
pub open spec fn relationship_evidence_read(row: RelationshipEvidenceRow, x: RelationshipEvidenceView) -> bool {
    &&& x.evidence_id == row.evidence_id@
    &&& x.relationship_id == row.relationship_id@
    &&& x.memory_id.value == id_or_nil(row.memory_id@)
    &&& x.source_id == opt_view(row.source_id)
    &&& x.evidence_text == opt_view(row.evidence_text)
    &&& x.span_start == row.span_start
    &&& x.span_end == row.span_end
    &&& x.confidence == row.confidence
    &&& x.created_at == unsigned_bits(row.created_at)
}

/// The row of the evidence for a relationship.
pub fn encode_relationship_evidence(x: &RelationshipEvidence) -> (res: RelationshipEvidenceRow)
    ensures
        relationship_evidence_stored(x@, res),
{
    RelationshipEvidenceRow {
        evidence_id: copy_text(x.evidence_id.as_str()),
        relationship_id: copy_text(x.relationship_id.as_str()),
        memory_id: id_text(&x.memory_id),
        source_id: copy_opt(&x.source_id),
        evidence_text: copy_opt(&x.evidence_text),
        span_start: x.span_start,
        span_end: x.span_end,
        confidence: x.confidence,
        created_at: time_to_column(x.created_at),
    }
}

/// Reads the evidence for a relationship from its row.
pub fn decode_relationship_evidence(row: RelationshipEvidenceRow) -> (res: RelationshipEvidence)
    ensures
        relationship_evidence_read(row, res@),
{
    RelationshipEvidence {
        evidence_id: row.evidence_id,
        relationship_id: row.relationship_id,
        memory_id: parse_id_or_nil(row.memory_id.as_str()),
        source_id: row.source_id,
        evidence_text: row.evidence_text,
        span_start: row.span_start,
        span_end: row.span_end,
        confidence: row.confidence,
        created_at: time_from_column(row.created_at),
    }
}

/// The evidence for a relationship survives its row.
pub proof fn law_relationship_evidence_round_trip(x: RelationshipEvidenceView, row: RelationshipEvidenceRow, y: RelationshipEvidenceView)
    requires
        relationship_evidence_stored(x, row),
        relationship_evidence_read(row, y),
    ensures
        y == x,
{
    law_uuid_round_trip(x.memory_id.value);
    assert(y =~= x);
}

} // verus!
