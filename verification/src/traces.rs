//! What is read back of the audit trail and of retrieval traces.
use crate::codec::{
    law_time_round_trip, opt_time_from_column, opt_unsigned, time_from_column, unsigned_bits,
};
use crate::float::Single;
use crate::ids::{
    id_or_nil, law_uuid_round_trip, parse_id_or_nil, parse_optional_memory_id, uuid_text,
};
use crate::json::json_list;
use crate::memory::{MemoryId, Timestamp};
use crate::rows::opt_id_read;
use crate::search::{
    is_trace_header, parse_tags_json, tags_or_none, trace_counts_fit, SearchRequest, TraceHeader,
    TraceHit,
};
use crate::text::{opt_view, views};
use vstd::prelude::*;

verus! {

/// A write-side audit record.
#[derive(Debug)]
pub struct MemoryOperation {
    pub operation_id: String,
    pub operation_type: String,
    pub memory_id: Option<MemoryId>,
    pub source: Option<MemoryId>,
    pub target: Option<MemoryId>,
    pub payload_json: String,
    pub created_at: Timestamp,
}

/// The columns of an audit record.
#[derive(Debug)]
pub struct MemoryOperationRow {
    pub operation_id: String,
    pub operation_type: String,
    pub memory_id: Option<String>,
    pub source: Option<String>,
    pub target: Option<String>,
    pub payload_json: String,
    pub created_at: i64,
}

/// Reads an audit record from its row; an identity that is no UUID is none.
pub fn decode_operation(row: MemoryOperationRow) -> (res: MemoryOperation)
    ensures
        res.operation_id@ == row.operation_id@,
        res.operation_type@ == row.operation_type@,
        opt_id_read(opt_view(row.memory_id), res.memory_id),
        opt_id_read(opt_view(row.source), res.source),
        opt_id_read(opt_view(row.target), res.target),
        res.payload_json@ == row.payload_json@,
        res.created_at == unsigned_bits(row.created_at),
{
    MemoryOperation {
        operation_id: row.operation_id,
        operation_type: row.operation_type,
        memory_id: parse_optional_memory_id(&row.memory_id),
        source: parse_optional_memory_id(&row.source),
        target: parse_optional_memory_id(&row.target),
        payload_json: row.payload_json,
        created_at: time_from_column(row.created_at),
    }
}

/// The count that a column holds.
pub open spec fn column_count(v: i64) -> usize {
    (unsigned_bits(v) as u64) as usize
}

fn count_from_column(v: i64) -> (res: usize)
    ensures
        res == column_count(v),
{
    #[verifier::truncate]
    (time_from_column(v) as usize)
}

fn opt_count_from_column(v: Option<i64>) -> (res: Option<usize>)
    ensures
        res == opt_column_count(v),
{
    match v {
        Some(n) => Some(count_from_column(n)),
        None => None,
    }
}

/// The count that a column holds, where it holds one.
pub open spec fn opt_column_count(v: Option<i64>) -> Option<usize> {
    match v {
        Some(n) => Some(column_count(n)),
        None => None,
    }
}

/// A stored retrieval trace header.
#[derive(Debug)]
pub struct RetrievalTrace {
    pub trace_id: String,
    pub query_text: Option<String>,
    pub query_embedding_dim: usize,
    pub k: usize,
    pub fetch_k: usize,
    pub tags: Vec<String>,
    pub tags_or: bool,
    pub time_range: Option<(Timestamp, Timestamp)>,
    pub candidate_count: usize,
    pub result_count: usize,
    pub created_at: Timestamp,
}

/// The columns of a trace.
#[derive(Debug)]
pub struct TraceRow {
    pub trace_id: String,
    pub header: TraceHeader,
    pub created_at: i64,
}

/// The mathematical form of the row of a trace.
pub struct TraceColumns {
    pub trace_id: Seq<char>,
    pub query_text: Option<Seq<char>>,
    pub query_embedding_dim: i64,
    pub k: i64,
    pub fetch_k: i64,
    pub tags_json: Seq<char>,
    pub tags_or: i64,
    pub time_start: Option<i64>,
    pub time_end: Option<i64>,
    pub candidate_count: i64,
    pub result_count: i64,
    pub created_at: i64,
}

impl View for TraceRow {
    type V = TraceColumns;

    open spec fn view(&self) -> TraceColumns {
        TraceColumns {
            trace_id: self.trace_id@,
            query_text: opt_view(self.header.query_text),
            query_embedding_dim: self.header.query_embedding_dim,
            k: self.header.k,
            fetch_k: self.header.fetch_k,
            tags_json: self.header.tags_json@,
            tags_or: self.header.tags_or,
            time_start: self.header.time_start,
            time_end: self.header.time_end,
            candidate_count: self.header.candidate_count,
            result_count: self.header.result_count,
            created_at: self.created_at,
        }
    }
}

/// Whether a trace is what a row holds.
pub open spec fn trace_read(row: TraceRow, t: RetrievalTrace) -> bool {
    &&& t.trace_id@ == row.trace_id@
    &&& opt_view(t.query_text) == opt_view(row.header.query_text)
    &&& t.query_embedding_dim == column_count(row.header.query_embedding_dim)
    &&& t.k == column_count(row.header.k)
    &&& t.fetch_k == column_count(row.header.fetch_k)
    &&& views(t.tags@) == match json_list(row.header.tags_json@) {
        Some(items) => items,
        None => Seq::empty(),
    }
    &&& t.tags_or == (row.header.tags_or != 0)
    &&& t.time_range == match (
        opt_unsigned(row.header.time_start),
        opt_unsigned(row.header.time_end),
    ) {
        (Some(start), Some(end)) => Some((start, end)),
        _ => None,
    }
    &&& t.candidate_count == column_count(row.header.candidate_count)
    &&& t.result_count == column_count(row.header.result_count)
    &&& t.created_at == unsigned_bits(row.created_at)
}

/// Reads a trace from its row.
pub fn decode_trace(row: TraceRow) -> (res: RetrievalTrace)
    ensures
        trace_read(row, res),
{
    let time_range: Option<(Timestamp, Timestamp)> = match (
        opt_time_from_column(row.header.time_start),
        opt_time_from_column(row.header.time_end),
    ) {
        (Some(start), Some(end)) => Some((start, end)),
        _ => None,
    };
    RetrievalTrace {
        trace_id: row.trace_id,
        query_embedding_dim: count_from_column(row.header.query_embedding_dim),
        k: count_from_column(row.header.k),
        fetch_k: count_from_column(row.header.fetch_k),
        tags: parse_tags_json(row.header.tags_json.as_str()),
        tags_or: row.header.tags_or != 0,
        time_range,
        candidate_count: count_from_column(row.header.candidate_count),
        result_count: count_from_column(row.header.result_count),
        created_at: time_from_column(row.created_at),
        query_text: row.header.query_text,
    }
}

/// A trace that is read back says what was searched, and how much was found.
pub proof fn law_trace_round_trip(
    request: SearchRequest,
    fetch_k: usize,
    candidate_count: usize,
    result_count: usize,
    row: TraceRow,
    t: RetrievalTrace,
)
    requires
        trace_counts_fit(request, fetch_k, candidate_count, result_count),
        is_trace_header(row.header, request, fetch_k, candidate_count, result_count),
        trace_read(row, t),
    ensures
        opt_view(t.query_text) == opt_view(request.query_text),
        t.query_embedding_dim == request.embedding_len,
        t.k == request.k,
        t.fetch_k == fetch_k,
        views(t.tags@) == tags_or_none(request.tags),
        t.tags_or == request.tags_or,
        t.time_range == request.time_range,
        t.candidate_count == candidate_count,
        t.result_count == result_count,
{
    if let Some((start, end)) = request.time_range {
        law_time_round_trip(start, Some(start));
        law_time_round_trip(end, Some(end));
    }
}

/// One final ranked hit from a stored retrieval trace.
#[derive(Debug)]
pub struct RetrievalTraceHit {
    pub trace_id: String,
    pub rank: usize,
    pub memory_id: MemoryId,
    pub score: Single,
    pub vector_rank: Option<usize>,
    pub bm25_rank: Option<usize>,
    pub salience: Option<Single>,
}

/// The columns of a hit of a trace.
#[derive(Debug)]
pub struct TraceHitRow {
    pub trace_id: String,
    pub rank: i64,
    pub memory_id: String,
    pub score: Single,
    pub vector_rank: Option<i64>,
    pub bm25_rank: Option<i64>,
    pub salience: Option<Single>,
}

/// The mathematical form of the row of a hit.
pub struct TraceHitColumns {
    pub trace_id: Seq<char>,
    pub rank: i64,
    pub memory_id: Seq<char>,
    pub score: Single,
    pub vector_rank: Option<i64>,
    pub bm25_rank: Option<i64>,
    pub salience: Option<Single>,
}

impl View for TraceHitRow {
    type V = TraceHitColumns;

    open spec fn view(&self) -> TraceHitColumns {
        TraceHitColumns {
            trace_id: self.trace_id@,
            rank: self.rank,
            memory_id: self.memory_id@,
            score: self.score,
            vector_rank: self.vector_rank,
            bm25_rank: self.bm25_rank,
            salience: self.salience,
        }
    }
}

/// Whether a hit is what a row holds.
pub open spec fn trace_hit_read(row: TraceHitRow, h: RetrievalTraceHit) -> bool {
    &&& h.trace_id@ == row.trace_id@
    &&& h.rank == column_count(row.rank)
    &&& h.memory_id.value == id_or_nil(row.memory_id@)
    &&& h.score == row.score
    &&& h.vector_rank == opt_column_count(row.vector_rank)
    &&& h.bm25_rank == opt_column_count(row.bm25_rank)
    &&& h.salience == row.salience
}

/// Reads a hit from its row.
pub fn decode_trace_hit(row: TraceHitRow) -> (res: RetrievalTraceHit)
    ensures
        trace_hit_read(row, res),
{
    RetrievalTraceHit {
        trace_id: row.trace_id,
        rank: count_from_column(row.rank),
        memory_id: parse_id_or_nil(row.memory_id.as_str()),
        score: row.score,
        vector_rank: opt_count_from_column(row.vector_rank),
        bm25_rank: opt_count_from_column(row.bm25_rank),
        salience: row.salience,
    }
}

/// The row of a hit of a trace.
pub open spec fn trace_hit_stored(hit: TraceHit, trace_id: Seq<char>, row: TraceHitRow) -> bool {
    &&& row.trace_id@ == trace_id
    &&& row.rank == hit.rank
    &&& row.memory_id@ == uuid_text(hit.memory_id.value)
    &&& row.score == hit.score
    &&& row.vector_rank == hit.vector_rank
    &&& row.bm25_rank == hit.bm25_rank
}

/// The row of a hit of a trace, with the salience of the memory at that time.
pub fn encode_trace_hit(hit: &TraceHit, trace_id: &str, salience: Option<Single>) -> (res:
    TraceHitRow)
    ensures
        trace_hit_stored(*hit, trace_id@, res),
        res.salience == salience,
{
    TraceHitRow {
        trace_id: crate::text::copy_text(trace_id),
        rank: hit.rank,
        memory_id: crate::ids::id_text(&hit.memory_id),
        score: hit.score,
        vector_rank: hit.vector_rank,
        bm25_rank: hit.bm25_rank,
        salience,
    }
}

/// A hit that is read back has the memory, the score and the places that it was
/// recorded with.
pub proof fn law_trace_hit_round_trip(
    hit: TraceHit,
    trace_id: Seq<char>,
    row: TraceHitRow,
    h: RetrievalTraceHit,
)
    requires
        trace_hit_stored(hit, trace_id, row),
        trace_hit_read(row, h),
        0 <= hit.rank <= usize::MAX,
        hit.vector_rank is Some ==> 0 <= hit.vector_rank->0 <= usize::MAX,
        hit.bm25_rank is Some ==> 0 <= hit.bm25_rank->0 <= usize::MAX,
    ensures
        h.trace_id@ == trace_id,
        h.rank == hit.rank,
        h.memory_id == hit.memory_id,
        h.score == hit.score,
        h.vector_rank is Some <==> hit.vector_rank is Some,
        h.vector_rank is Some ==> h.vector_rank->0 == hit.vector_rank->0,
        h.bm25_rank is Some <==> hit.bm25_rank is Some,
        h.bm25_rank is Some ==> h.bm25_rank->0 == hit.bm25_rank->0,
        h.salience == row.salience,
{
    law_uuid_round_trip(hit.memory_id.value);
}

} // verus!
