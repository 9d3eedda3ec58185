//! The records of the store: provenance, entities, conversations, extraction
//! runs, claims, relationships and the evidence behind them.
//!
//! Each record with a generated identity has two constructors. `new` takes the
//! identity from a random source and the time from the clock; the other one is
//! given both.
use crate::clock::now_us;
use crate::float::Single;
use crate::ids::{fresh_text, is_fresh_text};
use crate::memory::{MemoryId, Timestamp};
use crate::text::{copy_text, opt_view};
use vstd::prelude::*;

verus! {

/// The confidence of what is certain.
pub open spec fn certain() -> Single {
    Single { bits: 0x3f80_0000 }
}

/// Provenance for why a memory exists.
#[derive(Debug)]
pub struct MemorySource {
    pub source_id: String,
    pub memory_id: MemoryId,
    pub source_type: String,
    pub conversation_id: Option<String>,
    pub turn_id: Option<String>,
    pub actor_id: Option<String>,
    pub observed_at: Option<Timestamp>,
    pub extractor: Option<String>,
    pub extractor_hash: Option<String>,
    pub prompt_hash: Option<String>,
    pub payload_json: String,
    pub created_at: Timestamp,
}

impl MemorySource {
    /// A source record with a given identity and time.
    pub fn at(source_id: String, memory_id: MemoryId, source_type: &str, now: Timestamp) -> (res: Self)
        ensures
            res.source_id@ == source_id@,
            res.memory_id == memory_id,
            res.source_type@ == source_type@,
            res.conversation_id is None,
            res.turn_id is None,
            res.actor_id is None,
            res.observed_at is None,
            res.extractor is None,
            res.extractor_hash is None,
            res.prompt_hash is None,
            res.payload_json@ == "{}"@,
            res.created_at == now,
    {
        MemorySource {
            source_id,
            memory_id,
            source_type: copy_text(source_type),
            conversation_id: None,
            turn_id: None,
            actor_id: None,
            observed_at: None,
            extractor: None,
            extractor_hash: None,
            prompt_hash: None,
            payload_json: copy_text("{}"),
            created_at: now,
        }
    }

    /// A source record with a generated identity.
    pub fn new(memory_id: MemoryId, source_type: &str) -> (res: Self)
        ensures
            is_fresh_text(res.source_id@),
            res.memory_id == memory_id,
            res.source_type@ == source_type@,
            res.conversation_id is None,
            res.turn_id is None,
            res.actor_id is None,
            res.observed_at is None,
            res.extractor is None,
            res.extractor_hash is None,
            res.prompt_hash is None,
            res.payload_json@ == "{}"@,
    {
        MemorySource::at(fresh_text(), memory_id, source_type, now_us())
    }
}

/// Canonical entity row used for deterministic graph and recall filters.
#[derive(Debug)]
pub struct EntityRecord {
    pub entity_id: String,
    pub entity_type: String,
    pub canonical: String,
    pub attributes_json: String,
    pub confidence: Single,
    pub created_at: Timestamp,
    pub updated_at: Timestamp,
}

impl EntityRecord {
    /// An entity with a given identity and time.
    pub fn at(entity_id: String, entity_type: &str, canonical: &str, now: Timestamp) -> (res: Self)
        ensures
            res.entity_id@ == entity_id@,
            res.entity_type@ == entity_type@,
            res.canonical@ == canonical@,
            res.attributes_json@ == "{}"@,
            res.confidence == certain(),
            res.created_at == now,
            res.updated_at == now,
    {
        EntityRecord {
            entity_id,
            entity_type: copy_text(entity_type),
            canonical: copy_text(canonical),
            attributes_json: copy_text("{}"),
            confidence: Single { bits: 0x3f80_0000 },
            created_at: now,
            updated_at: now,
        }
    }

    /// An entity with a generated identity.
    pub fn new(entity_type: &str, canonical: &str) -> (res: Self)
        ensures
            is_fresh_text(res.entity_id@),
            res.entity_type@ == entity_type@,
            res.canonical@ == canonical@,
            res.attributes_json@ == "{}"@,
            res.confidence == certain(),
            res.updated_at == res.created_at,
    {
        EntityRecord::at(fresh_text(), entity_type, canonical, now_us())
    }
}

/// Alias for a canonical entity.
#[derive(Debug)]
pub struct EntityAlias {
    pub entity_id: String,
    pub alias: String,
    pub source: Option<String>,
    pub confidence: Single,
}

/// Link between a memory and an entity.
#[derive(Debug)]
pub struct MemoryEntityLink {
    pub memory_id: MemoryId,
    pub entity_id: String,
    pub role: Option<String>,
    pub confidence: Single,
    pub evidence: Option<String>,
}

/// A durable conversation or session container.
#[derive(Debug)]
pub struct ConversationRecord {
    pub conversation_id: String,
    pub title: Option<String>,
    pub metadata_json: String,
    pub created_at: Timestamp,
    pub updated_at: Timestamp,
}

impl ConversationRecord {
    /// A conversation that begins at a given time.
    pub fn at(conversation_id: &str, now: Timestamp) -> (res: Self)
        ensures
            res.conversation_id@ == conversation_id@,
            res.title is None,
            res.metadata_json@ == "{}"@,
            res.created_at == now,
            res.updated_at == now,
    {
        ConversationRecord {
            conversation_id: copy_text(conversation_id),
            title: None,
            metadata_json: copy_text("{}"),
            created_at: now,
            updated_at: now,
        }
    }

    /// A conversation that begins now.
    pub fn new(conversation_id: &str) -> (res: Self)
        ensures
            res.conversation_id@ == conversation_id@,
            res.title is None,
            res.metadata_json@ == "{}"@,
            res.updated_at == res.created_at,
    {
        ConversationRecord::at(conversation_id, now_us())
    }
}

/// One observed event in a conversation timeline.
#[derive(Debug)]
pub struct ConversationEvent {
    pub event_id: String,
    pub conversation_id: String,
    pub turn_id: Option<String>,
    pub event_type: String,
    pub actor_id: Option<String>,
    pub content: Option<String>,
    pub payload_json: String,
    pub observed_at: Timestamp,
    pub created_at: Timestamp,
}

impl ConversationEvent {
    /// An event with a given identity and time.
    pub fn at(event_id: String, conversation_id: &str, event_type: &str, now: Timestamp) -> (res: Self)
        ensures
            res.event_id@ == event_id@,
            res.conversation_id@ == conversation_id@,
            res.turn_id is None,
            res.event_type@ == event_type@,
            res.actor_id is None,
            res.content is None,
            res.payload_json@ == "{}"@,
            res.observed_at == now,
            res.created_at == now,
    {
        ConversationEvent {
            event_id,
            conversation_id: copy_text(conversation_id),
            turn_id: None,
            event_type: copy_text(event_type),
            actor_id: None,
            content: None,
            payload_json: copy_text("{}"),
            observed_at: now,
            created_at: now,
        }
    }

    /// An event with a generated identity, observed now.
    pub fn new(conversation_id: &str, event_type: &str) -> (res: Self)
        ensures
            is_fresh_text(res.event_id@),
            res.conversation_id@ == conversation_id@,
            res.turn_id is None,
            res.event_type@ == event_type@,
            res.actor_id is None,
            res.content is None,
            res.payload_json@ == "{}"@,
            res.created_at == res.observed_at,
    {
        ConversationEvent::at(fresh_text(), conversation_id, event_type, now_us())
    }
}

/// A versioned extraction attempt over raw memory or conversation data.
#[derive(Debug)]
pub struct ExtractionRun {
    pub run_id: String,
    pub source_memory_id: Option<MemoryId>,
    pub conversation_id: Option<String>,
    pub extractor: String,
    pub extractor_version: String,
    pub model: Option<String>,
    pub prompt_hash: Option<String>,
    pub config_hash: Option<String>,
    pub status: String,
    pub error: Option<String>,
    pub output_json: String,
    pub started_at: Timestamp,
    pub completed_at: Option<Timestamp>,
}

impl ExtractionRun {
    /// A pending run with a given identity and start.
    pub fn at(run_id: String, extractor: &str, extractor_version: &str, now: Timestamp) -> (res: Self)
        ensures
            res.run_id@ == run_id@,
            res.source_memory_id is None,
            res.conversation_id is None,
            res.extractor@ == extractor@,
            res.extractor_version@ == extractor_version@,
            res.model is None,
            res.prompt_hash is None,
            res.config_hash is None,
            res.status@ == "pending"@,
            res.error is None,
            res.output_json@ == "{}"@,
            res.started_at == now,
            res.completed_at is None,
    {
        ExtractionRun {
            run_id,
            source_memory_id: None,
            conversation_id: None,
            extractor: copy_text(extractor),
            extractor_version: copy_text(extractor_version),
            model: None,
            prompt_hash: None,
            config_hash: None,
            status: copy_text("pending"),
            error: None,
            output_json: copy_text("{}"),
            started_at: now,
            completed_at: None,
        }
    }

    /// A pending run with a generated identity that starts now.
    pub fn new(extractor: &str, extractor_version: &str) -> (res: Self)
        ensures
            is_fresh_text(res.run_id@),
            res.source_memory_id is None,
            res.conversation_id is None,
            res.extractor@ == extractor@,
            res.extractor_version@ == extractor_version@,
            res.model is None,
            res.prompt_hash is None,
            res.config_hash is None,
            res.status@ == "pending"@,
            res.error is None,
            res.output_json@ == "{}"@,
            res.completed_at is None,
    {
        ExtractionRun::at(fresh_text(), extractor, extractor_version, now_us())
    }
}

/// An atomic derived claim, backed by source evidence.
#[derive(Debug)]
pub struct ClaimRecord {
    pub claim_id: String,
    pub claim_text: String,
    pub claim_type: String,
    pub subject_entity_id: Option<String>,
    pub predicate: Option<String>,
    pub object_entity_id: Option<String>,
    pub confidence: Single,
    pub status: String,
    pub valid_from: Option<Timestamp>,
    pub valid_until: Option<Timestamp>,
    pub attributes_json: String,
    pub source_run_id: Option<String>,
    pub created_at: Timestamp,
    pub updated_at: Timestamp,
}

impl ClaimRecord {
    /// An active claim with a given identity and time.
    pub fn at(claim_id: String, claim_text: &str, claim_type: &str, now: Timestamp) -> (res: Self)
        ensures
            res.claim_id@ == claim_id@,
            res.claim_text@ == claim_text@,
            res.claim_type@ == claim_type@,
            res.subject_entity_id is None,
            res.predicate is None,
            res.object_entity_id is None,
            res.confidence == certain(),
            res.status@ == "active"@,
            res.valid_from is None,
            res.valid_until is None,
            res.attributes_json@ == "{}"@,
            res.source_run_id is None,
            res.created_at == now,
            res.updated_at == now,
    {
        ClaimRecord {
            claim_id,
            claim_text: copy_text(claim_text),
            claim_type: copy_text(claim_type),
            subject_entity_id: None,
            predicate: None,
            object_entity_id: None,
            confidence: Single { bits: 0x3f80_0000 },
            status: copy_text("active"),
            valid_from: None,
            valid_until: None,
            attributes_json: copy_text("{}"),
            source_run_id: None,
            created_at: now,
            updated_at: now,
        }
    }

    /// An active claim with a generated identity.
    pub fn new(claim_text: &str, claim_type: &str) -> (res: Self)
        ensures
            is_fresh_text(res.claim_id@),
            res.claim_text@ == claim_text@,
            res.claim_type@ == claim_type@,
            res.subject_entity_id is None,
            res.predicate is None,
            res.object_entity_id is None,
            res.confidence == certain(),
            res.status@ == "active"@,
            res.valid_from is None,
            res.valid_until is None,
            res.attributes_json@ == "{}"@,
            res.source_run_id is None,
            res.updated_at == res.created_at,
    {
        ClaimRecord::at(fresh_text(), claim_text, claim_type, now_us())
    }
}

/// Entity participation in a claim.
#[derive(Debug)]
pub struct ClaimEntityLink {
    pub claim_id: String,
    pub entity_id: String,
    pub role: String,
    pub confidence: Single,
}

/// Evidence span linking a claim back to memory and source rows.
#[derive(Debug)]
pub struct ClaimEvidence {
    pub evidence_id: String,
    pub claim_id: String,
    pub memory_id: MemoryId,
    pub source_id: Option<String>,
    pub evidence_text: Option<String>,
    pub span_start: Option<i64>,
    pub span_end: Option<i64>,
    pub confidence: Single,
    pub created_at: Timestamp,
}

impl ClaimEvidence {
    /// Evidence with a given identity and time.
    pub fn at(evidence_id: String, claim_id: &str, memory_id: MemoryId, now: Timestamp) -> (res: Self)
        ensures
            res.evidence_id@ == evidence_id@,
            res.claim_id@ == claim_id@,
            res.memory_id == memory_id,
            res.source_id is None,
            res.evidence_text is None,
            res.span_start is None,
            res.span_end is None,
            res.confidence == certain(),
            res.created_at == now,
    {
        ClaimEvidence {
            evidence_id,
            claim_id: copy_text(claim_id),
            memory_id,
            source_id: None,
            evidence_text: None,
            span_start: None,
            span_end: None,
            confidence: Single { bits: 0x3f80_0000 },
            created_at: now,
        }
    }

    /// Evidence with a generated identity.
    pub fn new(claim_id: &str, memory_id: MemoryId) -> (res: Self)
        ensures
            is_fresh_text(res.evidence_id@),
            res.claim_id@ == claim_id@,
            res.memory_id == memory_id,
            res.source_id is None,
            res.evidence_text is None,
            res.span_start is None,
            res.span_end is None,
            res.confidence == certain(),
    {
        ClaimEvidence::at(fresh_text(), claim_id, memory_id, now_us())
    }
}

/// A typed relationship between two canonical entities.
#[derive(Debug)]
pub struct EntityRelationship {
    pub relationship_id: String,
    pub source_entity_id: String,
    pub target_entity_id: String,
    pub relation_type: String,
    pub confidence: Single,
    pub status: String,
    pub valid_from: Option<Timestamp>,
    pub valid_until: Option<Timestamp>,
    pub attributes_json: String,
    pub source_run_id: Option<String>,
    pub created_at: Timestamp,
    pub updated_at: Timestamp,
}

impl EntityRelationship {
    /// An active relationship with a given identity and time.
    pub fn at(relationship_id: String, source_entity_id: &str, target_entity_id: &str, relation_type: &str, now: Timestamp) -> (res: Self)
        ensures
            res.relationship_id@ == relationship_id@,
            res.source_entity_id@ == source_entity_id@,
            res.target_entity_id@ == target_entity_id@,
            res.relation_type@ == relation_type@,
            res.confidence == certain(),
            res.status@ == "active"@,
            res.valid_from is None,
            res.valid_until is None,
            res.attributes_json@ == "{}"@,
            res.source_run_id is None,
            res.created_at == now,
            res.updated_at == now,
    {
        EntityRelationship {
            relationship_id,
            source_entity_id: copy_text(source_entity_id),
            target_entity_id: copy_text(target_entity_id),
            relation_type: copy_text(relation_type),
            confidence: Single { bits: 0x3f80_0000 },
            status: copy_text("active"),
            valid_from: None,
            valid_until: None,
            attributes_json: copy_text("{}"),
            source_run_id: None,
            created_at: now,
            updated_at: now,
        }
    }

    /// An active relationship with a generated identity.
    pub fn new(source_entity_id: &str, target_entity_id: &str, relation_type: &str) -> (res: Self)
        ensures
            is_fresh_text(res.relationship_id@),
            res.source_entity_id@ == source_entity_id@,
            res.target_entity_id@ == target_entity_id@,
            res.relation_type@ == relation_type@,
            res.confidence == certain(),
            res.status@ == "active"@,
            res.valid_from is None,
            res.valid_until is None,
            res.attributes_json@ == "{}"@,
            res.source_run_id is None,
            res.updated_at == res.created_at,
    {
        EntityRelationship::at(fresh_text(), source_entity_id, target_entity_id, relation_type, now_us())
    }
}

/// Evidence span linking a relationship back to memory and source rows.
#[derive(Debug)]
pub struct RelationshipEvidence {
    pub evidence_id: String,
    pub relationship_id: String,
    pub memory_id: MemoryId,
    pub source_id: Option<String>,
    pub evidence_text: Option<String>,
    pub span_start: Option<i64>,
    pub span_end: Option<i64>,
    pub confidence: Single,
    pub created_at: Timestamp,
}

impl RelationshipEvidence {
    /// Evidence with a given identity and time.
    pub fn at(evidence_id: String, relationship_id: &str, memory_id: MemoryId, now: Timestamp) -> (res: Self)
        ensures
            res.evidence_id@ == evidence_id@,
            res.relationship_id@ == relationship_id@,
            res.memory_id == memory_id,
            res.source_id is None,
            res.evidence_text is None,
            res.span_start is None,
            res.span_end is None,
            res.confidence == certain(),
            res.created_at == now,
    {
        RelationshipEvidence {
            evidence_id,
            relationship_id: copy_text(relationship_id),
            memory_id,
            source_id: None,
            evidence_text: None,
            span_start: None,
            span_end: None,
            confidence: Single { bits: 0x3f80_0000 },
            created_at: now,
        }
    }

    /// Evidence with a generated identity.
    pub fn new(relationship_id: &str, memory_id: MemoryId) -> (res: Self)
        ensures
            is_fresh_text(res.evidence_id@),
            res.relationship_id@ == relationship_id@,
            res.memory_id == memory_id,
            res.source_id is None,
            res.evidence_text is None,
            res.span_start is None,
            res.span_end is None,
            res.confidence == certain(),
    {
        RelationshipEvidence::at(fresh_text(), relationship_id, memory_id, now_us())
    }
}

/// The mathematical form of an entity.
#[verifier::ext_equal]
pub struct EntityColumns {
    pub entity_id: Seq<char>,
    pub entity_type: Seq<char>,
    pub canonical: Seq<char>,
    pub attributes_json: Seq<char>,
    pub confidence: Single,
    pub created_at: Timestamp,
    pub updated_at: Timestamp,
}

impl View for EntityRecord {
    type V = EntityColumns;

    open spec fn view(&self) -> EntityColumns {
        EntityColumns {
            entity_id: self.entity_id@,
            entity_type: self.entity_type@,
            canonical: self.canonical@,
            attributes_json: self.attributes_json@,
            confidence: self.confidence,
            created_at: self.created_at,
            updated_at: self.updated_at,
        }
    }
}

/// The mathematical form of an alias.
#[verifier::ext_equal]
pub struct AliasColumns {
    pub entity_id: Seq<char>,
    pub alias: Seq<char>,
    pub source: Option<Seq<char>>,
    pub confidence: Single,
}

impl View for EntityAlias {
    type V = AliasColumns;

    open spec fn view(&self) -> AliasColumns {
        AliasColumns {
            entity_id: self.entity_id@,
            alias: self.alias@,
            source: opt_view(self.source),
            confidence: self.confidence,
        }
    }
}

/// The mathematical form of the link of a memory to an entity.
#[verifier::ext_equal]
pub struct LinkColumns {
    pub memory_id: MemoryId,
    pub entity_id: Seq<char>,
    pub role: Option<Seq<char>>,
    pub confidence: Single,
    pub evidence: Option<Seq<char>>,
}

impl View for MemoryEntityLink {
    type V = LinkColumns;

    open spec fn view(&self) -> LinkColumns {
        LinkColumns {
            memory_id: self.memory_id,
            entity_id: self.entity_id@,
            role: opt_view(self.role),
            confidence: self.confidence,
            evidence: opt_view(self.evidence),
        }
    }
}

/// The mathematical form of a source record.
#[verifier::ext_equal]
pub struct SourceView {
    pub source_id: Seq<char>,
    pub memory_id: MemoryId,
    pub source_type: Seq<char>,
    pub conversation_id: Option<Seq<char>>,
    pub turn_id: Option<Seq<char>>,
    pub actor_id: Option<Seq<char>>,
    pub observed_at: Option<Timestamp>,
    pub extractor: Option<Seq<char>>,
    pub extractor_hash: Option<Seq<char>>,
    pub prompt_hash: Option<Seq<char>>,
    pub payload_json: Seq<char>,
    pub created_at: Timestamp,
}

impl View for MemorySource {
    type V = SourceView;

    open spec fn view(&self) -> SourceView {
        SourceView {
            source_id: self.source_id@,
            memory_id: self.memory_id,
            source_type: self.source_type@,
            conversation_id: opt_view(self.conversation_id),
            turn_id: opt_view(self.turn_id),
            actor_id: opt_view(self.actor_id),
            observed_at: self.observed_at,
            extractor: opt_view(self.extractor),
            extractor_hash: opt_view(self.extractor_hash),
            prompt_hash: opt_view(self.prompt_hash),
            payload_json: self.payload_json@,
            created_at: self.created_at,
        }
    }
}

/// The mathematical form of a conversation.
#[verifier::ext_equal]
pub struct ConversationView {
    pub conversation_id: Seq<char>,
    pub title: Option<Seq<char>>,
    pub metadata_json: Seq<char>,
    pub created_at: Timestamp,
    pub updated_at: Timestamp,
}

impl View for ConversationRecord {
    type V = ConversationView;

    open spec fn view(&self) -> ConversationView {
        ConversationView {
            conversation_id: self.conversation_id@,
            title: opt_view(self.title),
            metadata_json: self.metadata_json@,
            created_at: self.created_at,
            updated_at: self.updated_at,
        }
    }
}

/// The mathematical form of an event of a conversation.
#[verifier::ext_equal]
pub struct EventView {
    pub event_id: Seq<char>,
    pub conversation_id: Seq<char>,
    pub turn_id: Option<Seq<char>>,
    pub event_type: Seq<char>,
    pub actor_id: Option<Seq<char>>,
    pub content: Option<Seq<char>>,
    pub payload_json: Seq<char>,
    pub observed_at: Timestamp,
    pub created_at: Timestamp,
}

impl View for ConversationEvent {
    type V = EventView;

    open spec fn view(&self) -> EventView {
        EventView {
            event_id: self.event_id@,
            conversation_id: self.conversation_id@,
            turn_id: opt_view(self.turn_id),
            event_type: self.event_type@,
            actor_id: opt_view(self.actor_id),
            content: opt_view(self.content),
            payload_json: self.payload_json@,
            observed_at: self.observed_at,
            created_at: self.created_at,
        }
    }
}

/// The mathematical form of an extraction run.
#[verifier::ext_equal]
pub struct ExtractionView {
    pub run_id: Seq<char>,
    pub source_memory_id: Option<MemoryId>,
    pub conversation_id: Option<Seq<char>>,
    pub extractor: Seq<char>,
    pub extractor_version: Seq<char>,
    pub model: Option<Seq<char>>,
    pub prompt_hash: Option<Seq<char>>,
    pub config_hash: Option<Seq<char>>,
    pub status: Seq<char>,
    pub error: Option<Seq<char>>,
    pub output_json: Seq<char>,
    pub started_at: Timestamp,
    pub completed_at: Option<Timestamp>,
}

impl View for ExtractionRun {
    type V = ExtractionView;

    open spec fn view(&self) -> ExtractionView {
        ExtractionView {
            run_id: self.run_id@,
            source_memory_id: self.source_memory_id,
            conversation_id: opt_view(self.conversation_id),
            extractor: self.extractor@,
            extractor_version: self.extractor_version@,
            model: opt_view(self.model),
            prompt_hash: opt_view(self.prompt_hash),
            config_hash: opt_view(self.config_hash),
            status: self.status@,
            error: opt_view(self.error),
            output_json: self.output_json@,
            started_at: self.started_at,
            completed_at: self.completed_at,
        }
    }
}

/// The mathematical form of a claim.
#[verifier::ext_equal]
pub struct ClaimView {
    pub claim_id: Seq<char>,
    pub claim_text: Seq<char>,
    pub claim_type: Seq<char>,
    pub subject_entity_id: Option<Seq<char>>,
    pub predicate: Option<Seq<char>>,
    pub object_entity_id: Option<Seq<char>>,
    pub confidence: Single,
    pub status: Seq<char>,
    pub valid_from: Option<Timestamp>,
    pub valid_until: Option<Timestamp>,
    pub attributes_json: Seq<char>,
    pub source_run_id: Option<Seq<char>>,
    pub created_at: Timestamp,
    pub updated_at: Timestamp,
}

impl View for ClaimRecord {
    type V = ClaimView;

    open spec fn view(&self) -> ClaimView {
        ClaimView {
            claim_id: self.claim_id@,
            claim_text: self.claim_text@,
            claim_type: self.claim_type@,
            subject_entity_id: opt_view(self.subject_entity_id),
            predicate: opt_view(self.predicate),
            object_entity_id: opt_view(self.object_entity_id),
            confidence: self.confidence,
            status: self.status@,
            valid_from: self.valid_from,
            valid_until: self.valid_until,
            attributes_json: self.attributes_json@,
            source_run_id: opt_view(self.source_run_id),
            created_at: self.created_at,
            updated_at: self.updated_at,
        }
    }
}

/// The mathematical form of the link of a claim to an entity.
#[verifier::ext_equal]
pub struct ClaimEntityView {
    pub claim_id: Seq<char>,
    pub entity_id: Seq<char>,
    pub role: Seq<char>,
    pub confidence: Single,
}

impl View for ClaimEntityLink {
    type V = ClaimEntityView;

    open spec fn view(&self) -> ClaimEntityView {
        ClaimEntityView {
            claim_id: self.claim_id@,
            entity_id: self.entity_id@,
            role: self.role@,
            confidence: self.confidence,
        }
    }
}

/// The mathematical form of the evidence for a claim.
#[verifier::ext_equal]
pub struct ClaimEvidenceView {
    pub evidence_id: Seq<char>,
    pub claim_id: Seq<char>,
    pub memory_id: MemoryId,
    pub source_id: Option<Seq<char>>,
    pub evidence_text: Option<Seq<char>>,
    pub span_start: Option<i64>,
    pub span_end: Option<i64>,
    pub confidence: Single,
    pub created_at: Timestamp,
}

impl View for ClaimEvidence {
    type V = ClaimEvidenceView;

    open spec fn view(&self) -> ClaimEvidenceView {
        ClaimEvidenceView {
            evidence_id: self.evidence_id@,
            claim_id: self.claim_id@,
            memory_id: self.memory_id,
            source_id: opt_view(self.source_id),
            evidence_text: opt_view(self.evidence_text),
            span_start: self.span_start,
            span_end: self.span_end,
            confidence: self.confidence,
            created_at: self.created_at,
        }
    }
}

/// The mathematical form of a relationship.
#[verifier::ext_equal]
pub struct RelationshipView {
    pub relationship_id: Seq<char>,
    pub source_entity_id: Seq<char>,
    pub target_entity_id: Seq<char>,
    pub relation_type: Seq<char>,
    pub confidence: Single,
    pub status: Seq<char>,
    pub valid_from: Option<Timestamp>,
    pub valid_until: Option<Timestamp>,
    pub attributes_json: Seq<char>,
    pub source_run_id: Option<Seq<char>>,
    pub created_at: Timestamp,
    pub updated_at: Timestamp,
}

impl View for EntityRelationship {
    type V = RelationshipView;

    open spec fn view(&self) -> RelationshipView {
        RelationshipView {
            relationship_id: self.relationship_id@,
            source_entity_id: self.source_entity_id@,
            target_entity_id: self.target_entity_id@,
            relation_type: self.relation_type@,
            confidence: self.confidence,
            status: self.status@,
            valid_from: self.valid_from,
            valid_until: self.valid_until,
            attributes_json: self.attributes_json@,
            source_run_id: opt_view(self.source_run_id),
            created_at: self.created_at,
            updated_at: self.updated_at,
        }
    }
}

/// The mathematical form of the evidence for a relationship.
#[verifier::ext_equal]
pub struct RelationshipEvidenceView {
    pub evidence_id: Seq<char>,
    pub relationship_id: Seq<char>,
    pub memory_id: MemoryId,
    pub source_id: Option<Seq<char>>,
    pub evidence_text: Option<Seq<char>>,
    pub span_start: Option<i64>,
    pub span_end: Option<i64>,
    pub confidence: Single,
    pub created_at: Timestamp,
}

impl View for RelationshipEvidence {
    type V = RelationshipEvidenceView;

    open spec fn view(&self) -> RelationshipEvidenceView {
        RelationshipEvidenceView {
            evidence_id: self.evidence_id@,
            relationship_id: self.relationship_id@,
            memory_id: self.memory_id,
            source_id: opt_view(self.source_id),
            evidence_text: opt_view(self.evidence_text),
            span_start: self.span_start,
            span_end: self.span_end,
            confidence: self.confidence,
            created_at: self.created_at,
        }
    }
}

} // verus!
