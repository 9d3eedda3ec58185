//! Memories, edges and the errors of the store.
use crate::clock::now_us;
use crate::float::Single;
use crate::text::{copy_text, opt_view, views};
use vstd::prelude::*;

verus! {

/// Microseconds since the Unix epoch.
pub type Timestamp = u64;

/// The identity of a memory: the 128 bits of a UUID.
#[derive(Clone, Copy, Debug, PartialEq, Eq, Structural, Hash)]
pub struct MemoryId {
    pub value: u128,
}

/// The identity of an agent: the 128 bits of a UUID.
#[derive(Clone, Copy, Debug, PartialEq, Eq, Structural, Hash)]
pub struct AgentId {
    pub value: u128,
}

/// The identity of a space: the 128 bits of a UUID.
#[derive(Clone, Copy, Debug, PartialEq, Eq, Structural, Hash)]
pub struct SpaceId {
    pub value: u128,
}

/// What kind of knowledge a memory holds.
#[derive(Clone, Copy, Debug, PartialEq, Eq, Structural)]
pub enum MemoryType {
    Episodic,
    Semantic,
    Procedural,
    AntiPattern,
    Reasoning,
    Correction,
}

/// How one memory relates to another one.
#[derive(Clone, Copy, Debug, PartialEq, Eq, Structural)]
pub enum EdgeType {
    Caused,
    Before,
    Related,
    Contradicts,
    Supports,
    Supersedes,
    Derived,
    PartOf,
}

/// Which side of a memory node to read edges from.
#[derive(Clone, Copy, Debug, PartialEq, Eq, Structural)]
pub enum Direction {
    /// Edges where the node is the source.
    Outgoing,
    /// Edges where the node is the target.
    Incoming,
    /// Both directions.
    Both,
}

/// What can go wrong.
#[derive(Debug)]
pub enum MenteError {
    MemoryNotFound(MemoryId),
    Storage(String),
    Query(String),
    Serialization(String),
    InvalidInput(String),
    EmbeddingDimensionMismatch { got: usize, expected: usize },
}

/// The mathematical form of an error.
pub enum ErrorView {
    MemoryNotFound(MemoryId),
    Storage(Seq<char>),
    Query(Seq<char>),
    Serialization(Seq<char>),
    InvalidInput(Seq<char>),
    EmbeddingDimensionMismatch { got: usize, expected: usize },
}

impl View for MenteError {
    type V = ErrorView;

    open spec fn view(&self) -> ErrorView {
        match *self {
            MenteError::MemoryNotFound(id) => ErrorView::MemoryNotFound(id),
            MenteError::Storage(m) => ErrorView::Storage(m@),
            MenteError::Query(m) => ErrorView::Query(m@),
            MenteError::Serialization(m) => ErrorView::Serialization(m@),
            MenteError::InvalidInput(m) => ErrorView::InvalidInput(m@),
            MenteError::EmbeddingDimensionMismatch { got, expected } =>
                ErrorView::EmbeddingDimensionMismatch { got, expected },
        }
    }
}

/// The atomic unit of knowledge.
#[derive(Debug)]
pub struct MemoryNode {
    pub id: MemoryId,
    pub agent_id: AgentId,
    pub space_id: SpaceId,
    pub memory_type: MemoryType,
    pub content: String,
    pub embedding: Vec<Single>,
    pub created_at: Timestamp,
    pub accessed_at: Timestamp,
    pub access_count: u32,
    pub salience: Single,
    pub confidence: Single,
    /// The attributes as the text of a JSON object.
    pub attributes: String,
    pub tags: Vec<String>,
    pub valid_from: Option<Timestamp>,
    pub valid_until: Option<Timestamp>,
}

/// The mathematical form of a memory.
#[verifier::ext_equal]
pub struct MemoryView {
    pub id: MemoryId,
    pub agent_id: AgentId,
    pub space_id: SpaceId,
    pub memory_type: MemoryType,
    pub content: Seq<char>,
    pub embedding: Seq<Single>,
    pub created_at: Timestamp,
    pub accessed_at: Timestamp,
    pub access_count: u32,
    pub salience: Single,
    pub confidence: Single,
    pub attributes: Seq<char>,
    pub tags: Seq<Seq<char>>,
    pub valid_from: Option<Timestamp>,
    pub valid_until: Option<Timestamp>,
}

impl View for MemoryNode {
    type V = MemoryView;

    open spec fn view(&self) -> MemoryView {
        MemoryView {
            id: self.id,
            agent_id: self.agent_id,
            space_id: self.space_id,
            memory_type: self.memory_type,
            content: self.content@,
            embedding: self.embedding@,
            created_at: self.created_at,
            accessed_at: self.accessed_at,
            access_count: self.access_count,
            salience: self.salience,
            confidence: self.confidence,
            attributes: self.attributes@,
            tags: views(self.tags@),
            valid_from: self.valid_from,
            valid_until: self.valid_until,
        }
    }
}

impl MemoryNode {
    /// A memory with a given identity and time. It is fully salient and
    /// certain, has neither tags nor attributes, and is valid without bounds.
    pub fn at(
        id: MemoryId,
        agent_id: AgentId,
        memory_type: MemoryType,
        content: String,
        embedding: Vec<Single>,
        now: Timestamp,
    ) -> (res: MemoryNode)
        ensures
            res@ == fresh_memory(id, agent_id, memory_type, content@, embedding@, now),
    {
        let res = MemoryNode {
            id,
            agent_id,
            space_id: SpaceId { value: 0 },
            memory_type,
            content,
            embedding,
            created_at: now,
            accessed_at: now,
            access_count: 0,
            salience: Single { bits: 0x3f80_0000 },
            confidence: Single { bits: 0x3f80_0000 },
            attributes: copy_text("{}"),
            tags: Vec::new(),
            valid_from: None,
            valid_until: None,
        };
        assert(res@ =~= fresh_memory(id, agent_id, memory_type, content@, embedding@, now));
        res
    }

    /// A memory that is made now, with a fresh identity.
    pub fn new(
        agent_id: AgentId,
        memory_type: MemoryType,
        content: String,
        embedding: Vec<Single>,
    ) -> (res: MemoryNode)
        ensures
            crate::ids::is_random_uuid(res.id.value),
            res@ == fresh_memory(
                res.id,
                agent_id,
                memory_type,
                content@,
                embedding@,
                res.created_at,
            ),
    {
        MemoryNode::at(MemoryId::new(), agent_id, memory_type, content, embedding, now_us())
    }
}

/// A memory as it is made.
pub open spec fn fresh_memory(
    id: MemoryId,
    agent_id: AgentId,
    memory_type: MemoryType,
    content: Seq<char>,
    embedding: Seq<Single>,
    now: Timestamp,
) -> MemoryView {
    MemoryView {
        id,
        agent_id,
        space_id: SpaceId { value: 0 },
        memory_type,
        content,
        embedding,
        created_at: now,
        accessed_at: now,
        access_count: 0,
        salience: Single { bits: 0x3f80_0000 },
        confidence: Single { bits: 0x3f80_0000 },
        attributes: "{}"@,
        tags: Seq::empty(),
        valid_from: None,
        valid_until: None,
    }
}

/// A typed, weighted and optionally bounded relation between two memories.
#[derive(Debug)]
pub struct MemoryEdge {
    pub source: MemoryId,
    pub target: MemoryId,
    pub edge_type: EdgeType,
    pub weight: Single,
    pub created_at: Timestamp,
    pub valid_from: Option<Timestamp>,
    pub valid_until: Option<Timestamp>,
    pub label: Option<String>,
}

/// The mathematical form of an edge.
#[verifier::ext_equal]
pub struct EdgeView {
    pub source: MemoryId,
    pub target: MemoryId,
    pub edge_type: EdgeType,
    pub weight: Single,
    pub created_at: Timestamp,
    pub valid_from: Option<Timestamp>,
    pub valid_until: Option<Timestamp>,
    pub label: Option<Seq<char>>,
}

impl View for MemoryEdge {
    type V = EdgeView;

    open spec fn view(&self) -> EdgeView {
        EdgeView {
            source: self.source,
            target: self.target,
            edge_type: self.edge_type,
            weight: self.weight,
            created_at: self.created_at,
            valid_from: self.valid_from,
            valid_until: self.valid_until,
            label: opt_view(self.label),
        }
    }
}

impl MemoryEdge {
    /// An edge without bounds.
    pub fn plain(
        source: MemoryId,
        target: MemoryId,
        edge_type: EdgeType,
        weight: Single,
        now: Timestamp,
        label: Option<String>,
    ) -> (res: MemoryEdge)
        ensures
            res@ == plain_edge(source, target, edge_type, weight, now, opt_view(label)),
    {
        MemoryEdge {
            source,
            target,
            edge_type,
            weight,
            created_at: now,
            valid_from: None,
            valid_until: None,
            label,
        }
    }
}

/// An edge without bounds.
pub open spec fn plain_edge(
    source: MemoryId,
    target: MemoryId,
    edge_type: EdgeType,
    weight: Single,
    now: Timestamp,
    label: Option<Seq<char>>,
) -> EdgeView {
    EdgeView {
        source,
        target,
        edge_type,
        weight,
        created_at: now,
        valid_from: None,
        valid_until: None,
        label,
    }
}

} // verus!
