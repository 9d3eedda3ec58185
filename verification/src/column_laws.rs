//! In which column each part of a record stands, and what the audit records say that
//! they are of.
use crate::audit::{
    alias_upsert_record, artifacts_persist_record, claim_entity_upsert_record,
    claim_evidence_upsert_record, claim_upsert_record, conversation_upsert_record,
    edge_insert_record, edges_delete_record, entity_upsert_record, event_upsert_record,
    index_rebuild_record, links_replace_record, memory_delete_record,
    memory_entity_upsert_record, memory_upsert_record, relationship_evidence_upsert_record,
    relationship_upsert_record, run_upsert_record, source_upsert_record,
};
use crate::codec::{opt_signed, signed_bits};
use crate::ids::{opt_id_text, uuid_text};
use crate::memory::{EdgeView, MemoryId, MemoryView};
use crate::records::{
    ClaimEntityLink, ClaimEvidence, ClaimEvidenceView, ClaimRecord, ClaimView,
    ConversationEvent, ConversationRecord, EntityAlias, EntityColumns, EntityRecord,
    EntityRelationship, EventView, ExtractionRun, ExtractionView, LinkColumns, MemoryEntityLink,
    MemorySource, RelationshipEvidence, RelationshipEvidenceView, RelationshipView, SourceView,
};
use crate::rows::{
    claim_evidence_stored, claim_stored, entity_stored, event_stored, link_stored,
    relationship_evidence_stored, relationship_stored, run_stored, source_stored,
    ClaimEvidenceRow, ClaimRow, EntityRow, EventRow, LinkRow, RelationshipEvidenceRow,
    RelationshipRow, RunRow, SourceRow,
};
use crate::text::opt_view;
use crate::writes::role_column_of;
use vstd::prelude::*;

verus! {

/// A time stands in its column as the signed number with the same bits.
pub proof fn law_signed_times(t: u64)
    ensures
        t < 0x8000_0000_0000_0000 ==> signed_bits(t) == t,
        t >= 0x8000_0000_0000_0000 ==> signed_bits(t) == t - 0x1_0000_0000_0000_0000,
        opt_signed(None) is None,
        opt_signed(Some(t)) == Some(signed_bits(t) as i64),
{
}

/// A role stands in its column as it is; a missing one is empty there.
pub proof fn law_role_columns(role: Seq<char>)
    ensures
        role_column_of(Some(role)) == role,
        role_column_of(None).len() == 0,
{
    reveal_strlit("");
}

/// Each part of a source stands in the column of its name.
pub proof fn law_source_columns(x: SourceView, row: SourceRow)
    requires
        source_stored(x, row),
    ensures
        row.source_id@ == x.source_id,
        row.memory_id@ == uuid_text(x.memory_id.value),
        row.source_type@ == x.source_type,
        opt_view(row.conversation_id) == x.conversation_id,
        opt_view(row.turn_id) == x.turn_id,
        opt_view(row.actor_id) == x.actor_id,
        row.observed_at == opt_signed(x.observed_at),
        opt_view(row.extractor) == x.extractor,
        opt_view(row.extractor_hash) == x.extractor_hash,
        opt_view(row.prompt_hash) == x.prompt_hash,
        row.payload_json@ == x.payload_json,
        row.created_at == signed_bits(x.created_at),
{
}

/// Each part of an entity stands in the column of its name.
pub proof fn law_entity_columns(x: EntityColumns, row: EntityRow)
    requires
        entity_stored(x, row),
    ensures
        row.entity_id@ == x.entity_id,
        row.entity_type@ == x.entity_type,
        row.canonical@ == x.canonical,
        row.attributes_json@ == x.attributes_json,
        row.confidence == x.confidence,
        row.created_at == signed_bits(x.created_at),
        row.updated_at == signed_bits(x.updated_at),
{
}

/// Each part of the link of a memory to an entity stands in the column of its name.
pub proof fn law_link_columns(x: LinkColumns, row: LinkRow)
    requires
        link_stored(x, row),
    ensures
        row.memory_id@ == uuid_text(x.memory_id.value),
        row.entity_id@ == x.entity_id,
        row.role@ == role_column_of(x.role),
        row.confidence == x.confidence,
        opt_view(row.evidence) == x.evidence,
{
}

/// Each part of an event stands in the column of its name.
pub proof fn law_event_columns(x: EventView, row: EventRow)
    requires
        event_stored(x, row),
    ensures
        row.event_id@ == x.event_id,
        row.conversation_id@ == x.conversation_id,
        opt_view(row.turn_id) == x.turn_id,
        row.event_type@ == x.event_type,
        opt_view(row.actor_id) == x.actor_id,
        opt_view(row.content) == x.content,
        row.payload_json@ == x.payload_json,
        row.observed_at == signed_bits(x.observed_at),
        row.created_at == signed_bits(x.created_at),
{
}

/// Each part of an extraction run stands in the column of its name.
pub proof fn law_run_columns(x: ExtractionView, row: RunRow)
    requires
        run_stored(x, row),
    ensures
        row.run_id@ == x.run_id,
        opt_view(row.source_memory_id) == opt_id_text(x.source_memory_id),
        opt_view(row.conversation_id) == x.conversation_id,
        row.extractor@ == x.extractor,
        row.extractor_version@ == x.extractor_version,
        opt_view(row.model) == x.model,
        opt_view(row.prompt_hash) == x.prompt_hash,
        opt_view(row.config_hash) == x.config_hash,
        row.status@ == x.status,
        opt_view(row.error) == x.error,
        row.output_json@ == x.output_json,
        row.started_at == signed_bits(x.started_at),
        row.completed_at == opt_signed(x.completed_at),
{
}

/// Each part of a claim stands in the column of its name.
pub proof fn law_claim_columns(x: ClaimView, row: ClaimRow)
    requires
        claim_stored(x, row),
    ensures
        row.claim_id@ == x.claim_id,
        row.claim_text@ == x.claim_text,
        row.claim_type@ == x.claim_type,
        opt_view(row.subject_entity_id) == x.subject_entity_id,
        opt_view(row.predicate) == x.predicate,
        opt_view(row.object_entity_id) == x.object_entity_id,
        row.confidence == x.confidence,
        row.status@ == x.status,
        row.valid_from == opt_signed(x.valid_from),
        row.valid_until == opt_signed(x.valid_until),
        row.attributes_json@ == x.attributes_json,
        opt_view(row.source_run_id) == x.source_run_id,
        row.created_at == signed_bits(x.created_at),
        row.updated_at == signed_bits(x.updated_at),
{
}

/// Each part of the evidence for a claim stands in the column of its name.
pub proof fn law_claim_evidence_columns(x: ClaimEvidenceView, row: ClaimEvidenceRow)
    requires
        claim_evidence_stored(x, row),
    ensures
        row.evidence_id@ == x.evidence_id,
        row.claim_id@ == x.claim_id,
        row.memory_id@ == uuid_text(x.memory_id.value),
        opt_view(row.source_id) == x.source_id,
        opt_view(row.evidence_text) == x.evidence_text,
        row.span_start == x.span_start,
        row.span_end == x.span_end,
        row.confidence == x.confidence,
        row.created_at == signed_bits(x.created_at),
{
}

/// Each part of a relationship stands in the column of its name.
pub proof fn law_relationship_columns(x: RelationshipView, row: RelationshipRow)
    requires
        relationship_stored(x, row),
    ensures
        row.relationship_id@ == x.relationship_id,
        row.source_entity_id@ == x.source_entity_id,
        row.target_entity_id@ == x.target_entity_id,
        row.relation_type@ == x.relation_type,
        row.confidence == x.confidence,
        row.status@ == x.status,
        row.valid_from == opt_signed(x.valid_from),
        row.valid_until == opt_signed(x.valid_until),
        row.attributes_json@ == x.attributes_json,
        opt_view(row.source_run_id) == x.source_run_id,
        row.created_at == signed_bits(x.created_at),
        row.updated_at == signed_bits(x.updated_at),
{
}

/// Each part of the evidence for a relationship stands in the column of its name.
pub proof fn law_relationship_evidence_columns(x: RelationshipEvidenceView, row: RelationshipEvidenceRow)
    requires
        relationship_evidence_stored(x, row),
    ensures
        row.evidence_id@ == x.evidence_id,
        row.relationship_id@ == x.relationship_id,
        row.memory_id@ == uuid_text(x.memory_id.value),
        opt_view(row.source_id) == x.source_id,
        opt_view(row.evidence_text) == x.evidence_text,
        row.span_start == x.span_start,
        row.span_end == x.span_end,
        row.confidence == x.confidence,
        row.created_at == signed_bits(x.created_at),
{
}

/// Each record says of what kind it is.
pub proof fn law_operation_types(
    m: MemoryView,
    e: EdgeView,
    id: MemoryId,
    n: usize,
    rowid: i64,
    source: MemorySource,
    entity: EntityRecord,
    alias: EntityAlias,
    link: MemoryEntityLink,
    conversation: ConversationRecord,
    event: ConversationEvent,
    run: ExtractionRun,
    claim: ClaimRecord,
    claim_link: ClaimEntityLink,
    claim_evidence: ClaimEvidence,
    relationship: EntityRelationship,
    relationship_evidence: RelationshipEvidence,
)
    ensures
        memory_upsert_record(m).operation_type == "memory_upsert"@,
        memory_upsert_record(m).memory_id == Some(m.id),
        memory_upsert_record(m).source is None,
        memory_upsert_record(m).target is None,
        memory_delete_record(id, rowid, n, n).operation_type == "memory_delete"@,
        memory_delete_record(id, rowid, n, n).memory_id == Some(id),
        memory_delete_record(id, rowid, n, n).source is None,
        memory_delete_record(id, rowid, n, n).target is None,
        edge_insert_record(e).operation_type == "edge_insert"@,
        edge_insert_record(e).memory_id is None,
        edge_insert_record(e).source == Some(e.source),
        edge_insert_record(e).target == Some(e.target),
        edges_delete_record(id, n).operation_type == "edge_delete_for_memory"@,
        edges_delete_record(id, n).memory_id == Some(id),
        edges_delete_record(id, n).source is None,
        edges_delete_record(id, n).target is None,
        index_rebuild_record(n, n, n).operation_type == "vector_index_rebuild"@,
        index_rebuild_record(n, n, n).memory_id is None,
        index_rebuild_record(n, n, n).source is None,
        index_rebuild_record(n, n, n).target is None,
        source_upsert_record(source).operation_type == "memory_source_upsert"@,
        source_upsert_record(source).memory_id == Some(source.memory_id),
        source_upsert_record(source).source is None,
        source_upsert_record(source).target is None,
        entity_upsert_record(entity).operation_type == "entity_upsert"@,
        entity_upsert_record(entity).memory_id is None,
        entity_upsert_record(entity).source is None,
        entity_upsert_record(entity).target is None,
        alias_upsert_record(alias).operation_type == "entity_alias_upsert"@,
        alias_upsert_record(alias).memory_id is None,
        alias_upsert_record(alias).source is None,
        alias_upsert_record(alias).target is None,
        memory_entity_upsert_record(link).operation_type == "memory_entity_link_upsert"@,
        memory_entity_upsert_record(link).memory_id == Some(link.memory_id),
        memory_entity_upsert_record(link).source is None,
        memory_entity_upsert_record(link).target is None,
        conversation_upsert_record(conversation).operation_type == "conversation_upsert"@,
        conversation_upsert_record(conversation).memory_id is None,
        conversation_upsert_record(conversation).source is None,
        conversation_upsert_record(conversation).target is None,
        event_upsert_record(event).operation_type == "conversation_event_upsert"@,
        event_upsert_record(event).memory_id is None,
        event_upsert_record(event).source is None,
        event_upsert_record(event).target is None,
        run_upsert_record(run).operation_type == "extraction_run_upsert"@,
        run_upsert_record(run).memory_id == run.source_memory_id,
        run_upsert_record(run).source is None,
        run_upsert_record(run).target is None,
        claim_upsert_record(claim).operation_type == "claim_upsert"@,
        claim_upsert_record(claim).memory_id is None,
        claim_upsert_record(claim).source is None,
        claim_upsert_record(claim).target is None,
        claim_entity_upsert_record(claim_link).operation_type == "claim_entity_link_upsert"@,
        claim_entity_upsert_record(claim_link).memory_id is None,
        claim_entity_upsert_record(claim_link).source is None,
        claim_entity_upsert_record(claim_link).target is None,
        claim_evidence_upsert_record(claim_evidence).operation_type == "claim_evidence_upsert"@,
        claim_evidence_upsert_record(claim_evidence).memory_id == Some(claim_evidence.memory_id),
        claim_evidence_upsert_record(claim_evidence).source is None,
        claim_evidence_upsert_record(claim_evidence).target is None,
        relationship_upsert_record(relationship).operation_type == "entity_relationship_upsert"@,
        relationship_upsert_record(relationship).memory_id is None,
        relationship_upsert_record(relationship).source is None,
        relationship_upsert_record(relationship).target is None,
        relationship_evidence_upsert_record(relationship_evidence).operation_type == "relationship_evidence_upsert"@,
        relationship_evidence_upsert_record(relationship_evidence).memory_id == Some(relationship_evidence.memory_id),
        relationship_evidence_upsert_record(relationship_evidence).source is None,
        relationship_evidence_upsert_record(relationship_evidence).target is None,
        links_replace_record(id, n, n, n).operation_type == "memory_entity_links_replace"@,
        links_replace_record(id, n, n, n).memory_id == Some(id),
        links_replace_record(id, n, n, n).source is None,
        links_replace_record(id, n, n, n).target is None,
        artifacts_persist_record(run, n, n, n, n, n).operation_type == "extraction_artifacts_persist"@,
        artifacts_persist_record(run, n, n, n, n, n).memory_id == run.source_memory_id,
        artifacts_persist_record(run, n, n, n, n, n).source is None,
        artifacts_persist_record(run, n, n, n, n, n).target is None,
{
}

} // verus!
