//! The rows, statements and plans of the library against a real database.
use mentedb::audit::{Field, PayloadField};
use mentedb::clock::now_us;
use mentedb::codec::{
    blob_to_embedding, count_text, decode_edge, decode_memory, effective_dimension,
    embedding_to_blob, encode_edge, encode_memory, time_to_column, usize_to_i64, EdgeRow, MemoryRow,
};
use mentedb::float::Single;
use mentedb::graph::{edges_condition, neighbors};
use mentedb::hybrid::{FilteredSearch, FusedSearch, HybridSearch};
use mentedb::ids::{fresh_text, id_text, parse_id_or_nil};
use mentedb::lifecycle::{execute_plan, provision_batch, provision_one, PlanAction, QueryPlan};
use mentedb::memory::{
    AgentId, Direction, EdgeType, MemoryEdge, MemoryId, MemoryNode, MemoryType, MenteError,
    Timestamp,
};
use mentedb::query::{
    candidates_query, collect_ids, subgraph_query, tags_query, SqlQuery, SqlValue,
};
use mentedb::recall::found_memory;
use mentedb::records::{
    ClaimEntityLink, ClaimEvidence, ClaimRecord, ConversationEvent, ConversationRecord,
    EntityAlias, EntityRecord, EntityRelationship, ExtractionRun, MemoryEntityLink, MemorySource,
    RelationshipEvidence,
};
use mentedb::rows::{
    decode_claim, decode_claim_evidence, decode_entity, decode_event, decode_link,
    decode_relationship, decode_relationship_evidence, decode_run, decode_source, encode_claim,
    encode_claim_evidence, encode_entity, encode_event, encode_link, encode_relationship,
    encode_relationship_evidence, encode_run, encode_source, ClaimEvidenceRow, ClaimRow,
    EntityRow, EventRow, LinkRow, RelationshipEvidenceRow, RelationshipRow, RunRow, SourceRow,
};
use mentedb::search::{
    fts_rows, knn_rows, knn_runs, nearest_ids, salience_for_score, stale_traces, time_windows,
    RetrievalConfig, ScoredHit, SearchRequest, TraceHeader, TraceHit,
};
use mentedb::storage::{scan_all_memories, stored_ids, StorageId};
use mentedb::traces::{
    decode_operation, decode_trace, decode_trace_hit, encode_trace_hit, MemoryOperation,
    MemoryOperationRow, RetrievalTrace, RetrievalTraceHit, TraceHitRow, TraceRow,
};
use mentedb::writes;
use mentedb::writes::{record_operation, StoredEmbedding, Write};
use rusqlite::types::Value;
use rusqlite::{params_from_iter, Connection, OptionalExtension, Row, Transaction};
use std::cell::{Cell, RefCell};
use std::path::Path;

/// The error for a failure of the database.
fn store_err<E: std::fmt::Display>(e: E) -> MenteError {
    MenteError::Storage(e.to_string())
}

fn single(x: f32) -> Single {
    Single::from_bits(x.to_bits())
}

fn float(x: Single) -> f32 {
    f32::from_bits(x.to_bits())
}

fn singles(v: &[f32]) -> Vec<Single> {
    v.iter().map(|x| single(*x)).collect()
}

fn floats(v: &[Single]) -> Vec<f32> {
    v.iter().map(|x| float(*x)).collect()
}

fn text(s: &str) -> Value {
    Value::Text(s.to_string())
}

fn opt_text(s: &Option<String>) -> Value {
    s.as_deref().map_or(Value::Null, text)
}

fn opt_int(n: Option<i64>) -> Value {
    n.map_or(Value::Null, Value::Integer)
}

fn real_value(x: Single) -> Value {
    Value::Real(f64::from(float(x)))
}

fn opt_real(x: Option<Single>) -> Value {
    x.map_or(Value::Null, real_value)
}

fn bound(v: &SqlValue) -> Value {
    match v {
        SqlValue::Text(t) => text(t),
        SqlValue::Integer(n) => Value::Integer(*n),
    }
}

/// A column of a single-precision number.
fn single_at(row: &Row<'_>, i: usize) -> rusqlite::Result<Single> {
    Ok(single(row.get::<_, f64>(i)? as f32))
}

/// A nullable column of a single-precision number.
fn opt_single_at(row: &Row<'_>, i: usize) -> rusqlite::Result<Option<Single>> {
    Ok(row.get::<_, Option<f64>>(i)?.map(|x| single(x as f32)))
}

fn json_field(f: &Field) -> serde_json::Value {
    match f {
        Field::Null => serde_json::Value::Null,
        Field::Count(n) => serde_json::Value::from(*n),
        Field::Integer(n) => serde_json::Value::from(*n),
        Field::Real(x) => serde_json::Value::from(float(*x)),
        Field::Text(t) => serde_json::Value::from(t.as_str()),
        Field::List(items) => serde_json::Value::from(items.clone()),
    }
}

/// An audit payload as a JSON object.
fn payload(fields: &[PayloadField]) -> serde_json::Value {
    let mut out = serde_json::Map::new();
    for f in fields {
        out.insert(f.name.to_string(), json_field(&f.value));
    }
    serde_json::Value::Object(out)
}

/// The text of an audit payload.
fn payload_json(fields: &[PayloadField]) -> Result<String, MenteError> {
    serde_json::to_string(&payload(fields)).map_err(store_err)
}

/// The settings of a search, as they are kept with its trace.
fn retrieval_config_json(config: &RetrievalConfig) -> Result<String, MenteError> {
    let mut out = serde_json::Map::new();
    out.insert("fetch_multiplier".to_string(), serde_json::Value::from(config.fetch_multiplier));
    out.insert("rrf_k".to_string(), serde_json::Value::from(float(config.rrf_k)));
    out.insert("rrf_weight".to_string(), serde_json::Value::from(float(config.rrf_weight)));
    out.insert("salience_weight".to_string(), serde_json::Value::from(float(config.salience_weight)));
    out.insert("recency_weight".to_string(), serde_json::Value::from(float(config.recency_weight)));
    out.insert("recency_prior".to_string(), serde_json::Value::from(float(config.recency_prior)));
    out.insert("multi_query_rrf_k".to_string(), serde_json::Value::from(float(config.multi_query_rrf_k)));
    out.insert("trace_retention_limit".to_string(), serde_json::Value::from(config.trace_retention_limit));
    serde_json::to_string(&serde_json::Value::Object(out)).map_err(store_err)
}
/// A copy of unit length; floating-point arithmetic.
fn normalize(v: &[f32]) -> Vec<f32> {
    let norm: f32 = v.iter().map(|x| x * x).sum::<f32>().sqrt();
    if norm <= 0.0 || !norm.is_finite() {
        return v.to_vec();
    }
    v.iter().map(|x| x / norm).collect()
}

/// The dot product; floating-point arithmetic.
fn dot(a: &[f32], b: &[f32]) -> f32 {
    a.iter().zip(b.iter()).map(|(x, y)| x * y).sum()
}

/// Cosine similarity from the distance of unit vectors; floating-point
/// arithmetic.
fn l2_distance_to_similarity(l2_distance: f64) -> f32 {
    let sim = 1.0 - (l2_distance * l2_distance) / 2.0;
    sim.clamp(0.0, 1.0) as f32
}

/// The sum of reciprocal ranks; floating-point arithmetic.
fn fused_score(ranks: &[usize], k: Single) -> f32 {
    ranks.iter().map(|rank| 1.0 / (float(k) + *rank as f32)).sum()
}

/// The score of a hit by its ranks and its salience; floating-point arithmetic.
fn combined_score(ranks: &[usize], salience: Single, config: &RetrievalConfig) -> Single {
    single(
        fused_score(ranks, config.rrf_k) * float(config.rrf_weight)
            + float(salience) * float(config.salience_weight)
            + float(config.recency_prior) * float(config.recency_weight),
    )
}

const TABLES: &str = r#"
CREATE TABLE IF NOT EXISTS schema_meta (
    key   TEXT PRIMARY KEY,
    value TEXT NOT NULL
);
CREATE TABLE IF NOT EXISTS memories (
    id           TEXT PRIMARY KEY,
    agent_id     TEXT NOT NULL,
    space_id     TEXT NOT NULL,
    memory_type  TEXT NOT NULL,
    content      TEXT NOT NULL,
    embedding    BLOB,
    created_at   INTEGER NOT NULL,
    accessed_at  INTEGER NOT NULL,
    access_count INTEGER NOT NULL DEFAULT 0,
    salience     REAL    NOT NULL DEFAULT 1.0,
    confidence   REAL    NOT NULL DEFAULT 1.0,
    attributes   TEXT    NOT NULL DEFAULT '{}',
    valid_from   INTEGER,
    valid_until  INTEGER
);
CREATE TABLE IF NOT EXISTS memory_tags (
    memory_id TEXT NOT NULL,
    tag       TEXT NOT NULL,
    PRIMARY KEY (memory_id, tag)
);
CREATE TABLE IF NOT EXISTS edges (
    source     TEXT NOT NULL,
    target     TEXT NOT NULL,
    edge_type  TEXT NOT NULL,
    weight     REAL NOT NULL,
    created_at INTEGER NOT NULL,
    valid_from INTEGER,
    valid_until INTEGER,
    label      TEXT
);
CREATE VIRTUAL TABLE IF NOT EXISTS memories_fts USING fts5(
    content,
    content='memories',
    content_rowid='rowid'
);
CREATE TRIGGER IF NOT EXISTS memories_fts_ai AFTER INSERT ON memories BEGIN
    INSERT INTO memories_fts(rowid, content) VALUES (new.rowid, new.content);
END;
CREATE TRIGGER IF NOT EXISTS memories_fts_ad AFTER DELETE ON memories BEGIN
    INSERT INTO memories_fts(memories_fts, rowid, content) VALUES('delete', old.rowid, old.content);
END;
CREATE TRIGGER IF NOT EXISTS memories_fts_au AFTER UPDATE ON memories BEGIN
    INSERT INTO memories_fts(memories_fts, rowid, content) VALUES('delete', old.rowid, old.content);
    INSERT INTO memories_fts(rowid, content) VALUES (new.rowid, new.content);
END;
CREATE TABLE IF NOT EXISTS memory_operations (
    operation_id   TEXT PRIMARY KEY,
    operation_type TEXT NOT NULL,
    memory_id      TEXT,
    source         TEXT,
    target         TEXT,
    payload_json   TEXT NOT NULL,
    created_at     INTEGER NOT NULL
);
CREATE TABLE IF NOT EXISTS memory_sources (
    source_id       TEXT PRIMARY KEY,
    memory_id       TEXT NOT NULL,
    source_type     TEXT NOT NULL,
    conversation_id TEXT,
    turn_id         TEXT,
    actor_id        TEXT,
    observed_at     INTEGER,
    extractor       TEXT,
    extractor_hash  TEXT,
    prompt_hash     TEXT,
    payload_json    TEXT NOT NULL DEFAULT '{}',
    created_at      INTEGER NOT NULL,
    FOREIGN KEY(memory_id) REFERENCES memories(id) ON DELETE CASCADE
);
CREATE TABLE IF NOT EXISTS conversations (
    conversation_id TEXT PRIMARY KEY,
    title           TEXT,
    metadata_json   TEXT NOT NULL DEFAULT '{}',
    created_at      INTEGER NOT NULL,
    updated_at      INTEGER NOT NULL
);
CREATE TABLE IF NOT EXISTS conversation_events (
    event_id        TEXT PRIMARY KEY,
    conversation_id TEXT NOT NULL,
    turn_id         TEXT,
    event_type      TEXT NOT NULL,
    actor_id        TEXT,
    content         TEXT,
    payload_json    TEXT NOT NULL DEFAULT '{}',
    observed_at     INTEGER NOT NULL,
    created_at      INTEGER NOT NULL,
    FOREIGN KEY(conversation_id) REFERENCES conversations(conversation_id)
        ON DELETE CASCADE
);
CREATE TABLE IF NOT EXISTS extraction_runs (
    run_id           TEXT PRIMARY KEY,
    source_memory_id TEXT,
    conversation_id  TEXT,
    extractor        TEXT NOT NULL,
    extractor_version TEXT NOT NULL,
    model            TEXT,
    prompt_hash      TEXT,
    config_hash      TEXT,
    status           TEXT NOT NULL,
    error            TEXT,
    output_json      TEXT NOT NULL DEFAULT '{}',
    started_at       INTEGER NOT NULL,
    completed_at     INTEGER,
    FOREIGN KEY(source_memory_id) REFERENCES memories(id) ON DELETE SET NULL,
    FOREIGN KEY(conversation_id) REFERENCES conversations(conversation_id)
        ON DELETE SET NULL
);
CREATE TABLE IF NOT EXISTS entities (
    entity_id       TEXT PRIMARY KEY,
    entity_type     TEXT NOT NULL,
    canonical       TEXT NOT NULL,
    attributes_json TEXT NOT NULL DEFAULT '{}',
    confidence      REAL NOT NULL DEFAULT 1.0,
    created_at      INTEGER NOT NULL,
    updated_at      INTEGER NOT NULL
);
CREATE TABLE IF NOT EXISTS entity_aliases (
    entity_id  TEXT NOT NULL,
    alias      TEXT NOT NULL,
    source     TEXT,
    confidence REAL NOT NULL DEFAULT 1.0,
    PRIMARY KEY(entity_id, alias),
    FOREIGN KEY(entity_id) REFERENCES entities(entity_id) ON DELETE CASCADE
);
CREATE TABLE IF NOT EXISTS memory_entities (
    memory_id  TEXT NOT NULL,
    entity_id  TEXT NOT NULL,
    role       TEXT NOT NULL DEFAULT '',
    confidence REAL NOT NULL DEFAULT 1.0,
    evidence   TEXT,
    PRIMARY KEY(memory_id, entity_id, role),
    FOREIGN KEY(memory_id) REFERENCES memories(id) ON DELETE CASCADE,
    FOREIGN KEY(entity_id) REFERENCES entities(entity_id) ON DELETE CASCADE
);
CREATE TABLE IF NOT EXISTS claims (
    claim_id          TEXT PRIMARY KEY,
    claim_text        TEXT NOT NULL,
    claim_type        TEXT NOT NULL,
    subject_entity_id TEXT,
    predicate         TEXT,
    object_entity_id  TEXT,
    confidence        REAL NOT NULL DEFAULT 1.0,
    status            TEXT NOT NULL DEFAULT 'active',
    valid_from        INTEGER,
    valid_until       INTEGER,
    attributes_json   TEXT NOT NULL DEFAULT '{}',
    source_run_id     TEXT,
    created_at        INTEGER NOT NULL,
    updated_at        INTEGER NOT NULL,
    FOREIGN KEY(subject_entity_id) REFERENCES entities(entity_id)
        ON DELETE SET NULL,
    FOREIGN KEY(object_entity_id) REFERENCES entities(entity_id)
        ON DELETE SET NULL,
    FOREIGN KEY(source_run_id) REFERENCES extraction_runs(run_id)
        ON DELETE SET NULL
);
CREATE TABLE IF NOT EXISTS claim_entities (
    claim_id   TEXT NOT NULL,
    entity_id  TEXT NOT NULL,
    role       TEXT NOT NULL,
    confidence REAL NOT NULL DEFAULT 1.0,
    PRIMARY KEY(claim_id, entity_id, role),
    FOREIGN KEY(claim_id) REFERENCES claims(claim_id) ON DELETE CASCADE,
    FOREIGN KEY(entity_id) REFERENCES entities(entity_id) ON DELETE CASCADE
);
CREATE TABLE IF NOT EXISTS claim_evidence (
    evidence_id   TEXT PRIMARY KEY,
    claim_id      TEXT NOT NULL,
    memory_id     TEXT NOT NULL,
    source_id     TEXT,
    evidence_text TEXT,
    span_start    INTEGER,
    span_end      INTEGER,
    confidence    REAL NOT NULL DEFAULT 1.0,
    created_at    INTEGER NOT NULL,
    FOREIGN KEY(claim_id) REFERENCES claims(claim_id) ON DELETE CASCADE,
    FOREIGN KEY(memory_id) REFERENCES memories(id) ON DELETE CASCADE,
    FOREIGN KEY(source_id) REFERENCES memory_sources(source_id)
        ON DELETE SET NULL
);
CREATE TABLE IF NOT EXISTS entity_relationships (
    relationship_id  TEXT PRIMARY KEY,
    source_entity_id TEXT NOT NULL,
    target_entity_id TEXT NOT NULL,
    relation_type    TEXT NOT NULL,
    confidence       REAL NOT NULL DEFAULT 1.0,
    status           TEXT NOT NULL DEFAULT 'active',
    valid_from       INTEGER,
    valid_until      INTEGER,
    attributes_json  TEXT NOT NULL DEFAULT '{}',
    source_run_id    TEXT,
    created_at       INTEGER NOT NULL,
    updated_at       INTEGER NOT NULL,
    FOREIGN KEY(source_entity_id) REFERENCES entities(entity_id)
        ON DELETE CASCADE,
    FOREIGN KEY(target_entity_id) REFERENCES entities(entity_id)
        ON DELETE CASCADE,
    FOREIGN KEY(source_run_id) REFERENCES extraction_runs(run_id)
        ON DELETE SET NULL
);
CREATE TABLE IF NOT EXISTS relationship_evidence (
    evidence_id     TEXT PRIMARY KEY,
    relationship_id TEXT NOT NULL,
    memory_id       TEXT NOT NULL,
    source_id       TEXT,
    evidence_text   TEXT,
    span_start      INTEGER,
    span_end        INTEGER,
    confidence      REAL NOT NULL DEFAULT 1.0,
    created_at      INTEGER NOT NULL,
    FOREIGN KEY(relationship_id)
        REFERENCES entity_relationships(relationship_id)
        ON DELETE CASCADE,
    FOREIGN KEY(memory_id) REFERENCES memories(id) ON DELETE CASCADE,
    FOREIGN KEY(source_id) REFERENCES memory_sources(source_id)
        ON DELETE SET NULL
);
CREATE TABLE IF NOT EXISTS retrieval_traces (
    trace_id            TEXT PRIMARY KEY,
    query_text          TEXT,
    query_embedding_dim INTEGER NOT NULL,
    k                   INTEGER NOT NULL,
    fetch_k             INTEGER NOT NULL,
    tags_json           TEXT NOT NULL,
    tags_or             INTEGER NOT NULL,
    time_start          INTEGER,
    time_end            INTEGER,
    candidate_count     INTEGER NOT NULL,
    result_count        INTEGER NOT NULL,
    config_json         TEXT NOT NULL,
    created_at          INTEGER NOT NULL
);
CREATE TABLE IF NOT EXISTS retrieval_trace_hits (
    trace_id    TEXT NOT NULL,
    rank        INTEGER NOT NULL,
    memory_id   TEXT NOT NULL,
    score       REAL NOT NULL,
    vector_rank INTEGER,
    bm25_rank   INTEGER,
    salience    REAL,
    PRIMARY KEY(trace_id, rank),
    FOREIGN KEY(trace_id) REFERENCES retrieval_traces(trace_id) ON DELETE CASCADE
);
"#;

fn create_index(tx: &Transaction<'_>) -> Result<(), MenteError> {
    execute(
        tx,
        "CREATE TABLE IF NOT EXISTS memory_vec (rowid INTEGER PRIMARY KEY, embedding BLOB)",
        Vec::new(),
    )?;
    Ok(())
}

fn set_meta(tx: &Transaction<'_>, key: &str, value: &str) -> Result<(), MenteError> {
    execute(
        tx,
        "INSERT OR REPLACE INTO schema_meta(key, value) VALUES (?1, ?2)",
        vec![text(key), text(value)],
    )?;
    Ok(())
}

fn distance(a: &[f32], b: &[f32]) -> f64 {
    a.iter()
        .zip(b.iter())
        .map(|(x, y)| f64::from(x - y) * f64::from(x - y))
        .sum::<f64>()
        .sqrt()
}

/// Runs one statement and returns how many rows it changed.
fn execute(tx: &Transaction<'_>, sql: &str, values: Vec<Value>) -> Result<usize, MenteError> {
    tx.execute(sql, params_from_iter(values)).map_err(store_err)
}

/// The row number of a memory.
fn rowid(tx: &Transaction<'_>, id: MemoryId) -> Result<Option<i64>, MenteError> {
    tx.query_row("SELECT rowid FROM memories WHERE id = ?1", [id_text(&id)], |r| r.get(0))
        .optional()
        .map_err(store_err)
}

/// Adds a row to the vector index, of unit length.
fn insert_vector(tx: &Transaction<'_>, row: i64, embedding: &[f32]) -> Result<(), MenteError> {
    let blob = embedding_to_blob(&singles(&normalize(embedding)));
    execute(
        tx,
        "INSERT INTO memory_vec (rowid, embedding) VALUES (?1, ?2)",
        vec![Value::Integer(row), Value::Blob(blob)],
    )?;
    Ok(())
}

fn write_memory(tx: &Transaction<'_>, node: &MemoryNode) -> Result<usize, MenteError> {
    let row = encode_memory(node);
    execute(
        tx,
        "INSERT INTO memories (
            id, agent_id, space_id, memory_type, content, embedding, created_at, accessed_at,
            access_count, salience, confidence, attributes, valid_from, valid_until
         ) VALUES (?1, ?2, ?3, ?4, ?5, ?6, ?7, ?8, ?9, ?10, ?11, ?12, ?13, ?14)
         ON CONFLICT(id) DO UPDATE SET
            agent_id = excluded.agent_id, space_id = excluded.space_id,
            memory_type = excluded.memory_type, content = excluded.content,
            embedding = excluded.embedding, accessed_at = excluded.accessed_at,
            access_count = excluded.access_count, salience = excluded.salience,
            confidence = excluded.confidence, attributes = excluded.attributes,
            valid_from = excluded.valid_from, valid_until = excluded.valid_until",
        vec![
            text(&row.id),
            text(&row.agent_id),
            text(&row.space_id),
            text(&row.memory_type),
            text(&row.content),
            row.embedding.map_or(Value::Null, Value::Blob),
            Value::Integer(row.created_at),
            Value::Integer(row.accessed_at),
            Value::Integer(row.access_count),
            real_value(row.salience),
            real_value(row.confidence),
            text(&row.attributes),
            opt_int(row.valid_from),
            opt_int(row.valid_until),
        ],
    )
}

fn write_conversation(tx: &Transaction<'_>, c: &ConversationRecord) -> Result<usize, MenteError> {
    execute(
        tx,
        "INSERT INTO conversations (
            conversation_id, title, metadata_json, created_at, updated_at
         ) VALUES (?1, ?2, ?3, ?4, ?5)
         ON CONFLICT(conversation_id) DO UPDATE SET
            title = excluded.title, metadata_json = excluded.metadata_json,
            updated_at = excluded.updated_at",
        vec![
            text(&c.conversation_id),
            opt_text(&c.title),
            text(&c.metadata_json),
            Value::Integer(time_to_column(c.created_at)),
            Value::Integer(time_to_column(c.updated_at)),
        ],
    )
}

fn write_touch(tx: &Transaction<'_>, e: &ConversationEvent) -> Result<usize, MenteError> {
    execute(
        tx,
        "INSERT OR IGNORE INTO conversations (
            conversation_id, metadata_json, created_at, updated_at
         ) VALUES (?1, '{}', ?2, ?2)",
        vec![text(&e.conversation_id), Value::Integer(time_to_column(e.created_at))],
    )?;
    execute(
        tx,
        "UPDATE conversations SET updated_at = MAX(updated_at, ?2) WHERE conversation_id = ?1",
        vec![text(&e.conversation_id), Value::Integer(time_to_column(e.observed_at))],
    )
}

fn write_extraction_run(tx: &Transaction<'_>, x: &ExtractionRun) -> Result<usize, MenteError> {
    let row = encode_run(x);
    execute(
        tx,
        "INSERT INTO extraction_runs (
            run_id, source_memory_id, conversation_id, extractor, extractor_version, model,
            prompt_hash, config_hash, status, error, output_json, started_at, completed_at
         ) VALUES (?1, ?2, ?3, ?4, ?5, ?6, ?7, ?8, ?9, ?10, ?11, ?12, ?13)
         ON CONFLICT(run_id) DO UPDATE SET
            source_memory_id = excluded.source_memory_id,
            conversation_id = excluded.conversation_id, extractor = excluded.extractor,
            extractor_version = excluded.extractor_version, model = excluded.model,
            prompt_hash = excluded.prompt_hash, config_hash = excluded.config_hash,
            status = excluded.status, error = excluded.error,
            output_json = excluded.output_json, completed_at = excluded.completed_at",
        vec![
            text(&row.run_id),
            opt_text(&row.source_memory_id),
            opt_text(&row.conversation_id),
            text(&row.extractor),
            text(&row.extractor_version),
            opt_text(&row.model),
            opt_text(&row.prompt_hash),
            opt_text(&row.config_hash),
            text(&row.status),
            opt_text(&row.error),
            text(&row.output_json),
            Value::Integer(row.started_at),
            opt_int(row.completed_at),
        ],
    )
}

fn write_alias(tx: &Transaction<'_>, a: &EntityAlias) -> Result<usize, MenteError> {
    execute(
        tx,
        "INSERT INTO entity_aliases (entity_id, alias, source, confidence)
         VALUES (?1, ?2, ?3, ?4)
         ON CONFLICT(entity_id, alias) DO UPDATE SET
            source = excluded.source, confidence = excluded.confidence",
        vec![text(&a.entity_id), text(&a.alias), opt_text(&a.source), real_value(a.confidence)],
    )
}

fn write_claim_entity(tx: &Transaction<'_>, l: &ClaimEntityLink) -> Result<usize, MenteError> {
    execute(
        tx,
        "INSERT INTO claim_entities (claim_id, entity_id, role, confidence)
         VALUES (?1, ?2, ?3, ?4)
         ON CONFLICT(claim_id, entity_id, role) DO UPDATE SET confidence = excluded.confidence",
        vec![text(&l.claim_id), text(&l.entity_id), text(&l.role), real_value(l.confidence)],
    )
}

/// Performs one step and returns how many rows it changed.
fn perform(tx: &Transaction<'_>, step: Write<'_>) -> Result<usize, MenteError> {
    match step {
        Write::Memory(node) => write_memory(tx, node),
        Write::VectorClear(id) => {
            if let Some(row) = rowid(tx, id)? {
                let _ = tx.execute("DELETE FROM memory_vec WHERE rowid = ?1", [row]);
            }
            Ok(0)
        }
        Write::Vector(node) => {
            if let Some(row) = rowid(tx, node.id)? {
                insert_vector(tx, row, &floats(&node.embedding))?;
            }
            Ok(1)
        }
        Write::VectorsClear => execute(tx, "DELETE FROM memory_vec", Vec::new()),
        Write::StoredVector(stored) => {
            if let Some(row) = rowid(tx, stored.id)? {
                insert_vector(tx, row, &floats(&stored.embedding))?;
            }
            Ok(1)
        }
        Write::TagsClear(id) => {
            execute(tx, "DELETE FROM memory_tags WHERE memory_id = ?1", vec![text(&id_text(&id))])
        }
        Write::Tag(id, tag) => execute(
            tx,
            "INSERT OR IGNORE INTO memory_tags (memory_id, tag) VALUES (?1, ?2)",
            vec![text(&id_text(&id)), text(tag)],
        ),
        Write::MemoryClear(id) => {
            execute(tx, "DELETE FROM memories WHERE id = ?1", vec![text(&id_text(&id))])
        }
        Write::Edge(e) => {
            let row = encode_edge(e);
            execute(
                tx,
                "INSERT INTO edges (
                    source, target, edge_type, weight, created_at, valid_from, valid_until, label
                 ) VALUES (?1, ?2, ?3, ?4, ?5, ?6, ?7, ?8)",
                vec![
                    text(&row.source),
                    text(&row.target),
                    text(&row.edge_type),
                    real_value(row.weight),
                    Value::Integer(row.created_at),
                    opt_int(row.valid_from),
                    opt_int(row.valid_until),
                    opt_text(&row.label),
                ],
            )
        }
        Write::EdgesClear(id) => execute(
            tx,
            "DELETE FROM edges WHERE source = ?1 OR target = ?1",
            vec![text(&id_text(&id))],
        ),
        Write::Source(x) => {
            let row = encode_source(x);
            execute(
                tx,
                "INSERT INTO memory_sources (
                    source_id, memory_id, source_type, conversation_id, turn_id, actor_id,
                    observed_at, extractor, extractor_hash, prompt_hash, payload_json, created_at
                 ) VALUES (?1, ?2, ?3, ?4, ?5, ?6, ?7, ?8, ?9, ?10, ?11, ?12)
                 ON CONFLICT(source_id) DO UPDATE SET
                    memory_id = excluded.memory_id, source_type = excluded.source_type,
                    conversation_id = excluded.conversation_id, turn_id = excluded.turn_id,
                    actor_id = excluded.actor_id, observed_at = excluded.observed_at,
                    extractor = excluded.extractor, extractor_hash = excluded.extractor_hash,
                    prompt_hash = excluded.prompt_hash, payload_json = excluded.payload_json,
                    created_at = excluded.created_at",
                vec![
                    text(&row.source_id),
                    text(&row.memory_id),
                    text(&row.source_type),
                    opt_text(&row.conversation_id),
                    opt_text(&row.turn_id),
                    opt_text(&row.actor_id),
                    opt_int(row.observed_at),
                    opt_text(&row.extractor),
                    opt_text(&row.extractor_hash),
                    opt_text(&row.prompt_hash),
                    text(&row.payload_json),
                    Value::Integer(row.created_at),
                ],
            )
        }
        Write::Entity(x) => {
            let row = encode_entity(x);
            execute(
                tx,
                "INSERT INTO entities (
                    entity_id, entity_type, canonical, attributes_json, confidence, created_at,
                    updated_at
                 ) VALUES (?1, ?2, ?3, ?4, ?5, ?6, ?7)
                 ON CONFLICT(entity_id) DO UPDATE SET
                    entity_type = excluded.entity_type, canonical = excluded.canonical,
                    attributes_json = excluded.attributes_json,
                    confidence = excluded.confidence, updated_at = excluded.updated_at",
                vec![
                    text(&row.entity_id),
                    text(&row.entity_type),
                    text(&row.canonical),
                    text(&row.attributes_json),
                    real_value(row.confidence),
                    Value::Integer(row.created_at),
                    Value::Integer(row.updated_at),
                ],
            )
        }
        Write::Alias(x) => write_alias(tx, x),
        Write::MemoryEntity(x) => {
            let row = encode_link(x);
            execute(
                tx,
                "INSERT INTO memory_entities (memory_id, entity_id, role, confidence, evidence)
                 VALUES (?1, ?2, ?3, ?4, ?5)
                 ON CONFLICT(memory_id, entity_id, role) DO UPDATE SET
                    confidence = excluded.confidence, evidence = excluded.evidence",
                vec![
                    text(&row.memory_id),
                    text(&row.entity_id),
                    text(&row.role),
                    real_value(row.confidence),
                    opt_text(&row.evidence),
                ],
            )
        }
        Write::MemoryEntitiesClear(id) => execute(
            tx,
            "DELETE FROM memory_entities WHERE memory_id = ?1",
            vec![text(&id_text(&id))],
        ),
        Write::Conversation(x) => write_conversation(tx, x),
        Write::ConversationTouch(x) => write_touch(tx, x),
        Write::Event(x) => {
            let row = encode_event(x);
            execute(
                tx,
                "INSERT INTO conversation_events (
                    event_id, conversation_id, turn_id, event_type, actor_id, content,
                    payload_json, observed_at, created_at
                 ) VALUES (?1, ?2, ?3, ?4, ?5, ?6, ?7, ?8, ?9)
                 ON CONFLICT(event_id) DO UPDATE SET
                    conversation_id = excluded.conversation_id, turn_id = excluded.turn_id,
                    event_type = excluded.event_type, actor_id = excluded.actor_id,
                    content = excluded.content, payload_json = excluded.payload_json,
                    observed_at = excluded.observed_at",
                vec![
                    text(&row.event_id),
                    text(&row.conversation_id),
                    opt_text(&row.turn_id),
                    text(&row.event_type),
                    opt_text(&row.actor_id),
                    opt_text(&row.content),
                    text(&row.payload_json),
                    Value::Integer(row.observed_at),
                    Value::Integer(row.created_at),
                ],
            )
        }
        Write::Run(x) => write_extraction_run(tx, x),
        Write::Claim(x) => {
            let row = encode_claim(x);
            execute(
                tx,
                "INSERT INTO claims (
                    claim_id, claim_text, claim_type, subject_entity_id, predicate,
                    object_entity_id, confidence, status, valid_from, valid_until,
                    attributes_json, source_run_id, created_at, updated_at
                 ) VALUES (?1, ?2, ?3, ?4, ?5, ?6, ?7, ?8, ?9, ?10, ?11, ?12, ?13, ?14)
                 ON CONFLICT(claim_id) DO UPDATE SET
                    claim_text = excluded.claim_text, claim_type = excluded.claim_type,
                    subject_entity_id = excluded.subject_entity_id,
                    predicate = excluded.predicate,
                    object_entity_id = excluded.object_entity_id,
                    confidence = excluded.confidence, status = excluded.status,
                    valid_from = excluded.valid_from, valid_until = excluded.valid_until,
                    attributes_json = excluded.attributes_json,
                    source_run_id = excluded.source_run_id, updated_at = excluded.updated_at",
                vec![
                    text(&row.claim_id),
                    text(&row.claim_text),
                    text(&row.claim_type),
                    opt_text(&row.subject_entity_id),
                    opt_text(&row.predicate),
                    opt_text(&row.object_entity_id),
                    real_value(row.confidence),
                    text(&row.status),
                    opt_int(row.valid_from),
                    opt_int(row.valid_until),
                    text(&row.attributes_json),
                    opt_text(&row.source_run_id),
                    Value::Integer(row.created_at),
                    Value::Integer(row.updated_at),
                ],
            )
        }
        Write::ClaimEntity(x) => write_claim_entity(tx, x),
        Write::ClaimEvidence(x) => {
            let row = encode_claim_evidence(x);
            execute(
                tx,
                "INSERT INTO claim_evidence (
                    evidence_id, claim_id, memory_id, source_id, evidence_text, span_start,
                    span_end, confidence, created_at
                 ) VALUES (?1, ?2, ?3, ?4, ?5, ?6, ?7, ?8, ?9)
                 ON CONFLICT(evidence_id) DO UPDATE SET
                    claim_id = excluded.claim_id, memory_id = excluded.memory_id,
                    source_id = excluded.source_id, evidence_text = excluded.evidence_text,
                    span_start = excluded.span_start, span_end = excluded.span_end,
                    confidence = excluded.confidence",
                vec![
                    text(&row.evidence_id),
                    text(&row.claim_id),
                    text(&row.memory_id),
                    opt_text(&row.source_id),
                    opt_text(&row.evidence_text),
                    opt_int(row.span_start),
                    opt_int(row.span_end),
                    real_value(row.confidence),
                    Value::Integer(row.created_at),
                ],
            )
        }
        Write::Relationship(x) => {
            let row = encode_relationship(x);
            execute(
                tx,
                "INSERT INTO entity_relationships (
                    relationship_id, source_entity_id, target_entity_id, relation_type,
                    confidence, status, valid_from, valid_until, attributes_json,
                    source_run_id, created_at, updated_at
                 ) VALUES (?1, ?2, ?3, ?4, ?5, ?6, ?7, ?8, ?9, ?10, ?11, ?12)
                 ON CONFLICT(relationship_id) DO UPDATE SET
                    source_entity_id = excluded.source_entity_id,
                    target_entity_id = excluded.target_entity_id,
                    relation_type = excluded.relation_type, confidence = excluded.confidence,
                    status = excluded.status, valid_from = excluded.valid_from,
                    valid_until = excluded.valid_until,
                    attributes_json = excluded.attributes_json,
                    source_run_id = excluded.source_run_id, updated_at = excluded.updated_at",
                vec![
                    text(&row.relationship_id),
                    text(&row.source_entity_id),
                    text(&row.target_entity_id),
                    text(&row.relation_type),
                    real_value(row.confidence),
                    text(&row.status),
                    opt_int(row.valid_from),
                    opt_int(row.valid_until),
                    text(&row.attributes_json),
                    opt_text(&row.source_run_id),
                    Value::Integer(row.created_at),
                    Value::Integer(row.updated_at),
                ],
            )
        }
        Write::RelationshipEvidence(x) => {
            let row = encode_relationship_evidence(x);
            execute(
                tx,
                "INSERT INTO relationship_evidence (
                    evidence_id, relationship_id, memory_id, source_id, evidence_text,
                    span_start, span_end, confidence, created_at
                 ) VALUES (?1, ?2, ?3, ?4, ?5, ?6, ?7, ?8, ?9)
                 ON CONFLICT(evidence_id) DO UPDATE SET
                    relationship_id = excluded.relationship_id, memory_id = excluded.memory_id,
                    source_id = excluded.source_id, evidence_text = excluded.evidence_text,
                    span_start = excluded.span_start, span_end = excluded.span_end,
                    confidence = excluded.confidence",
                vec![
                    text(&row.evidence_id),
                    text(&row.relationship_id),
                    text(&row.memory_id),
                    opt_text(&row.source_id),
                    opt_text(&row.evidence_text),
                    opt_int(row.span_start),
                    opt_int(row.span_end),
                    real_value(row.confidence),
                    Value::Integer(row.created_at),
                ],
            )
        }
        Write::Record(operation) => {
            let row = record_operation(operation);
            execute(
                tx,
                "INSERT INTO memory_operations (
                    operation_id, operation_type, memory_id, source, target, payload_json,
                    created_at
                 ) VALUES (?1, ?2, ?3, ?4, ?5, ?6, ?7)",
                vec![
                    text(&row.operation_id),
                    text(row.operation_type),
                    opt_text(&row.memory_id),
                    opt_text(&row.source),
                    opt_text(&row.target),
                    Value::Text(payload_json(&row.payload)?),
                    Value::Integer(row.created_at),
                ],
            )
        }
        Write::Trace(row, config) => execute(
            tx,
            "INSERT INTO retrieval_traces (
                trace_id, query_text, query_embedding_dim, k, fetch_k, tags_json, tags_or,
                time_start, time_end, candidate_count, result_count, config_json, created_at
             ) VALUES (?1, ?2, ?3, ?4, ?5, ?6, ?7, ?8, ?9, ?10, ?11, ?12, ?13)",
            vec![
                text(&row.trace_id),
                opt_text(&row.header.query_text),
                Value::Integer(row.header.query_embedding_dim),
                Value::Integer(row.header.k),
                Value::Integer(row.header.fetch_k),
                text(&row.header.tags_json),
                Value::Integer(row.header.tags_or),
                opt_int(row.header.time_start),
                opt_int(row.header.time_end),
                Value::Integer(row.header.candidate_count),
                Value::Integer(row.header.result_count),
                Value::Text(retrieval_config_json(config)?),
                Value::Integer(row.created_at),
            ],
        ),
        Write::TraceHit(row) => execute(
            tx,
            "INSERT INTO retrieval_trace_hits (
                trace_id, rank, memory_id, score, vector_rank, bm25_rank, salience
             ) VALUES (?1, ?2, ?3, ?4, ?5, ?6, ?7)",
            vec![
                text(&row.trace_id),
                Value::Integer(row.rank),
                text(&row.memory_id),
                real_value(row.score),
                opt_int(row.vector_rank),
                opt_int(row.bm25_rank),
                opt_real(row.salience),
            ],
        ),
        Write::TraceHitsClear(id) => execute(
            tx,
            "DELETE FROM retrieval_trace_hits WHERE trace_id = ?1",
            vec![text(id)],
        ),
        Write::TraceClear(id) => execute(
            tx,
            "DELETE FROM retrieval_traces WHERE trace_id = ?1",
            vec![text(id)],
        ),
    }
}

const MEMORY: &str = "id, agent_id, space_id, memory_type, content, embedding, created_at, \
    accessed_at, access_count, salience, confidence, attributes, valid_from, valid_until";
const EDGE: &str =
    "source, target, edge_type, weight, created_at, valid_from, valid_until, label";
const SOURCE: &str = "source_id, memory_id, source_type, conversation_id, turn_id, actor_id, \
    observed_at, extractor, extractor_hash, prompt_hash, payload_json, created_at";
const EVENT: &str = "event_id, conversation_id, turn_id, event_type, actor_id, content, \
    payload_json, observed_at, created_at";
const RUN: &str = "run_id, source_memory_id, conversation_id, extractor, extractor_version, \
    model, prompt_hash, config_hash, status, error, output_json, started_at, completed_at";
const ENTITY: &str = "e.entity_id, e.entity_type, e.canonical, e.attributes_json, \
    e.confidence, e.created_at, e.updated_at";
const LINK: &str = "memory_id, entity_id, role, confidence, evidence";
const CLAIM: &str = "c.claim_id, c.claim_text, c.claim_type, c.subject_entity_id, \
    c.predicate, c.object_entity_id, c.confidence, c.status, c.valid_from, c.valid_until, \
    c.attributes_json, c.source_run_id, c.created_at, c.updated_at";
const CLAIM_EVIDENCE: &str = "evidence_id, claim_id, memory_id, source_id, evidence_text, \
    span_start, span_end, confidence, created_at";
const RELATIONSHIP: &str = "r.relationship_id, r.source_entity_id, r.target_entity_id, \
    r.relation_type, r.confidence, r.status, r.valid_from, r.valid_until, r.attributes_json, \
    r.source_run_id, r.created_at, r.updated_at";
const RELATIONSHIP_EVIDENCE: &str = "evidence_id, relationship_id, memory_id, source_id, \
    evidence_text, span_start, span_end, confidence, created_at";

/// Reads all rows of a query.
fn rows<T>(
    conn: &Connection,
    sql: &str,
    values: Vec<Value>,
    read: fn(&Row<'_>) -> rusqlite::Result<T>,
) -> Result<Vec<T>, MenteError> {
    let mut stmt = conn.prepare(sql).map_err(store_err)?;
    let found = stmt.query_map(params_from_iter(values), read).map_err(store_err)?;
    found.map(|row| row.map_err(store_err)).collect()
}

/// Reads the first row of a query.
fn first<T>(
    conn: &Connection,
    sql: &str,
    values: Vec<Value>,
    read: fn(&Row<'_>) -> rusqlite::Result<T>,
) -> Result<Option<T>, MenteError> {
    conn.query_row(sql, params_from_iter(values), read).optional().map_err(store_err)
}

fn one_text(row: &Row<'_>) -> rusqlite::Result<String> {
    row.get(0)
}

fn memory_row(r: &Row<'_>) -> rusqlite::Result<MemoryRow> {
    Ok(MemoryRow {
        id: r.get(0)?,
        agent_id: r.get(1)?,
        space_id: r.get(2)?,
        memory_type: r.get(3)?,
        content: r.get(4)?,
        embedding: r.get(5)?,
        created_at: r.get(6)?,
        accessed_at: r.get(7)?,
        access_count: r.get(8)?,
        salience: single_at(r, 9)?,
        confidence: single_at(r, 10)?,
        attributes: r.get(11)?,
        valid_from: r.get(12)?,
        valid_until: r.get(13)?,
    })
}

/// Fails on a blob that holds no whole number of numbers.
fn check_blob(blob: &[u8]) {
    assert!(blob.len() % 4 == 0, "embedding blob of {} bytes", blob.len());
}

/// Reads the embedding of a memory.
fn read_stored_embedding(r: &Row<'_>) -> rusqlite::Result<StoredEmbedding> {
    let id: String = r.get(0)?;
    let blob: Vec<u8> = r.get(1)?;
    check_blob(&blob);
    Ok(StoredEmbedding { id: parse_id_or_nil(&id), embedding: blob_to_embedding(&blob) })
}

/// Reads a memory with its tags.
fn read_memory(conn: &Connection, id: MemoryId) -> Result<Option<MemoryNode>, MenteError> {
    let key = id_text(&id);
    let sql = format!("SELECT {MEMORY} FROM memories WHERE id = ?1");
    let Some(row) = first(conn, &sql, vec![text(&key)], memory_row)? else {
        return Ok(None);
    };
    if let Some(blob) = &row.embedding {
        check_blob(blob);
    }
    let tags = rows(
        conn,
        "SELECT tag FROM memory_tags WHERE memory_id = ?1 ORDER BY tag",
        vec![text(&key)],
        one_text,
    )?;
    Ok(Some(decode_memory(row, tags)))
}

fn read_edge(r: &Row<'_>) -> rusqlite::Result<MemoryEdge> {
    Ok(decode_edge(EdgeRow {
        source: r.get(0)?,
        target: r.get(1)?,
        edge_type: r.get(2)?,
        weight: single_at(r, 3)?,
        created_at: r.get(4)?,
        valid_from: r.get(5)?,
        valid_until: r.get(6)?,
        label: r.get(7)?,
    }))
}

fn read_source(r: &Row<'_>) -> rusqlite::Result<MemorySource> {
    Ok(decode_source(SourceRow {
        source_id: r.get(0)?,
        memory_id: r.get(1)?,
        source_type: r.get(2)?,
        conversation_id: r.get(3)?,
        turn_id: r.get(4)?,
        actor_id: r.get(5)?,
        observed_at: r.get(6)?,
        extractor: r.get(7)?,
        extractor_hash: r.get(8)?,
        prompt_hash: r.get(9)?,
        payload_json: r.get(10)?,
        created_at: r.get(11)?,
    }))
}

fn read_event(r: &Row<'_>) -> rusqlite::Result<ConversationEvent> {
    Ok(decode_event(EventRow {
        event_id: r.get(0)?,
        conversation_id: r.get(1)?,
        turn_id: r.get(2)?,
        event_type: r.get(3)?,
        actor_id: r.get(4)?,
        content: r.get(5)?,
        payload_json: r.get(6)?,
        observed_at: r.get(7)?,
        created_at: r.get(8)?,
    }))
}

fn read_extraction_run(r: &Row<'_>) -> rusqlite::Result<ExtractionRun> {
    Ok(decode_run(RunRow {
        run_id: r.get(0)?,
        source_memory_id: r.get(1)?,
        conversation_id: r.get(2)?,
        extractor: r.get(3)?,
        extractor_version: r.get(4)?,
        model: r.get(5)?,
        prompt_hash: r.get(6)?,
        config_hash: r.get(7)?,
        status: r.get(8)?,
        error: r.get(9)?,
        output_json: r.get(10)?,
        started_at: r.get(11)?,
        completed_at: r.get(12)?,
    }))
}

fn read_entity(r: &Row<'_>) -> rusqlite::Result<EntityRecord> {
    Ok(decode_entity(EntityRow {
        entity_id: r.get(0)?,
        entity_type: r.get(1)?,
        canonical: r.get(2)?,
        attributes_json: r.get(3)?,
        confidence: single_at(r, 4)?,
        created_at: r.get(5)?,
        updated_at: r.get(6)?,
    }))
}

fn read_alias(r: &Row<'_>) -> rusqlite::Result<EntityAlias> {
    Ok(EntityAlias {
        entity_id: r.get(0)?,
        alias: r.get(1)?,
        source: r.get(2)?,
        confidence: single_at(r, 3)?,
    })
}

fn read_link(r: &Row<'_>) -> rusqlite::Result<MemoryEntityLink> {
    Ok(decode_link(LinkRow {
        memory_id: r.get(0)?,
        entity_id: r.get(1)?,
        role: r.get(2)?,
        confidence: single_at(r, 3)?,
        evidence: r.get(4)?,
    }))
}

fn read_claim(r: &Row<'_>) -> rusqlite::Result<ClaimRecord> {
    Ok(decode_claim(ClaimRow {
        claim_id: r.get(0)?,
        claim_text: r.get(1)?,
        claim_type: r.get(2)?,
        subject_entity_id: r.get(3)?,
        predicate: r.get(4)?,
        object_entity_id: r.get(5)?,
        confidence: single_at(r, 6)?,
        status: r.get(7)?,
        valid_from: r.get(8)?,
        valid_until: r.get(9)?,
        attributes_json: r.get(10)?,
        source_run_id: r.get(11)?,
        created_at: r.get(12)?,
        updated_at: r.get(13)?,
    }))
}

fn read_claim_evidence(r: &Row<'_>) -> rusqlite::Result<ClaimEvidence> {
    Ok(decode_claim_evidence(ClaimEvidenceRow {
        evidence_id: r.get(0)?,
        claim_id: r.get(1)?,
        memory_id: r.get(2)?,
        source_id: r.get(3)?,
        evidence_text: r.get(4)?,
        span_start: r.get(5)?,
        span_end: r.get(6)?,
        confidence: single_at(r, 7)?,
        created_at: r.get(8)?,
    }))
}

fn read_relationship(r: &Row<'_>) -> rusqlite::Result<EntityRelationship> {
    Ok(decode_relationship(RelationshipRow {
        relationship_id: r.get(0)?,
        source_entity_id: r.get(1)?,
        target_entity_id: r.get(2)?,
        relation_type: r.get(3)?,
        confidence: single_at(r, 4)?,
        status: r.get(5)?,
        valid_from: r.get(6)?,
        valid_until: r.get(7)?,
        attributes_json: r.get(8)?,
        source_run_id: r.get(9)?,
        created_at: r.get(10)?,
        updated_at: r.get(11)?,
    }))
}

fn read_relationship_evidence(r: &Row<'_>) -> rusqlite::Result<RelationshipEvidence> {
    Ok(decode_relationship_evidence(RelationshipEvidenceRow {
        evidence_id: r.get(0)?,
        relationship_id: r.get(1)?,
        memory_id: r.get(2)?,
        source_id: r.get(3)?,
        evidence_text: r.get(4)?,
        span_start: r.get(5)?,
        span_end: r.get(6)?,
        confidence: single_at(r, 7)?,
        created_at: r.get(8)?,
    }))
}

fn read_operation(r: &Row<'_>) -> rusqlite::Result<MemoryOperation> {
    Ok(decode_operation(MemoryOperationRow {
        operation_id: r.get(0)?,
        operation_type: r.get(1)?,
        memory_id: r.get(2)?,
        source: r.get(3)?,
        target: r.get(4)?,
        payload_json: r.get(5)?,
        created_at: r.get(6)?,
    }))
}

fn read_trace(r: &Row<'_>) -> rusqlite::Result<RetrievalTrace> {
    Ok(decode_trace(TraceRow {
        trace_id: r.get(0)?,
        header: TraceHeader {
            query_text: r.get(1)?,
            query_embedding_dim: r.get(2)?,
            k: r.get(3)?,
            fetch_k: r.get(4)?,
            tags_json: r.get(5)?,
            tags_or: r.get(6)?,
            time_start: r.get(7)?,
            time_end: r.get(8)?,
            candidate_count: r.get(9)?,
            result_count: r.get(10)?,
        },
        created_at: r.get(11)?,
    }))
}

fn read_trace_hit(r: &Row<'_>) -> rusqlite::Result<RetrievalTraceHit> {
    Ok(decode_trace_hit(TraceHitRow {
        trace_id: r.get(0)?,
        rank: r.get(1)?,
        memory_id: r.get(2)?,
        score: single_at(r, 3)?,
        vector_rank: r.get(4)?,
        bm25_rank: r.get(5)?,
        salience: opt_single_at(r, 6)?,
    }))
}
/// The store, with its vector index in a table of its own.
struct Backend {
    conn: RefCell<Connection>,
    retrieval_config: RetrievalConfig,
    trace_retrieval: Cell<bool>,
    embedding_dim: Cell<usize>,
}

impl Backend {
    fn open(path: &Path, hint: usize) -> Result<Self, MenteError> {
        Self::start(Connection::open(path).map_err(store_err)?, hint)
    }

    fn open_in_memory(hint: usize) -> Result<Self, MenteError> {
        Self::start(Connection::open_in_memory().map_err(store_err)?, hint)
    }

    fn start(mut conn: Connection, hint: usize) -> Result<Self, MenteError> {
        conn.pragma_update(None, "foreign_keys", "ON").map_err(store_err)?;
        let tx = conn.transaction().map_err(store_err)?;
        tx.execute_batch(TABLES).map_err(store_err)?;
        let stored: Option<String> = first(
            &tx,
            "SELECT value FROM schema_meta WHERE key = 'embedding_dim'",
            Vec::new(),
            one_text,
        )?;
        let dim = effective_dimension(&stored, hint);
        if dim > 0 {
            create_index(&tx)?;
        }
        set_meta(&tx, "embedding_dim", &count_text(dim))?;
        tx.commit().map_err(store_err)?;
        Ok(Self {
            conn: RefCell::new(conn),
            retrieval_config: RetrievalConfig::default(),
            trace_retrieval: Cell::new(false),
            embedding_dim: Cell::new(dim),
        })
    }

    fn embedding_dim(&self) -> usize {
        self.embedding_dim.get()
    }

    fn set_retrieval_tracing(&self, enabled: bool) {
        self.trace_retrieval.set(enabled);
    }

    /// Builds the vector index for a dimension from the stored embeddings.
    fn ensure_vector_index(&self, dim: usize) -> Result<(), MenteError> {
        let mut conn = self.conn.borrow_mut();
        let tx = conn.transaction().map_err(store_err)?;
        let stored = rows(
            &tx,
            "SELECT id, embedding FROM memories WHERE embedding IS NOT NULL",
            Vec::new(),
            read_stored_embedding,
        )?;
        let Some(plan) = writes::ensure_vector_index(self.embedding_dim(), &stored, dim) else {
            return Ok(());
        };
        for step in plan {
            if matches!(step, Write::VectorsClear) {
                let _ = tx.execute("DROP TABLE IF EXISTS memory_vec", []);
                create_index(&tx)?;
            } else {
                perform(&tx, step)?;
            }
        }
        set_meta(&tx, "embedding_dim", &count_text(dim))?;
        tx.commit().map_err(store_err)?;
        self.embedding_dim.set(dim);
        Ok(())
    }

    /// Performs a plan in one transaction.
    fn perform(&self, plan: Vec<Write<'_>>) -> Result<(), MenteError> {
        let mut conn = self.conn.borrow_mut();
        let tx = conn.transaction().map_err(store_err)?;
        for step in plan {
            perform(&tx, step)?;
        }
        tx.commit().map_err(store_err)
    }

    // --- memories ----------------------------------------------------------

    fn store_memory(&self, node: &MemoryNode) -> Result<(), MenteError> {
        self.perform(writes::store_memory(node, self.embedding_dim())?)
    }

    fn store_memory_with_source(
        &self,
        node: &MemoryNode,
        source: &MemorySource,
    ) -> Result<(), MenteError> {
        self.perform(writes::store_memory_with_source(node, source, self.embedding_dim())?)
    }

    fn store_memory_batch(&self, nodes: &Vec<MemoryNode>) -> Result<(), MenteError> {
        self.perform(writes::store_memory_batch(nodes, self.embedding_dim())?)
    }

    fn get_memory(&self, id: MemoryId) -> Result<Option<MemoryNode>, MenteError> {
        read_memory(&self.conn.borrow(), id)
    }

    /// Deletes a memory; whether there was one.
    fn delete_memory(&self, id: MemoryId) -> Result<bool, MenteError> {
        let mut conn = self.conn.borrow_mut();
        let tx = conn.transaction().map_err(store_err)?;
        let Some(row) = rowid(&tx, id)? else {
            return Ok(false);
        };
        let (mut tags, mut edges) = (0, 0);
        for step in writes::delete_memory(id) {
            match step {
                Write::TagsClear(_) => tags = perform(&tx, step)?,
                Write::EdgesClear(_) => edges = perform(&tx, step)?,
                other => {
                    perform(&tx, other)?;
                }
            }
        }
        perform(&tx, writes::delete_memory_record(id, row, tags, edges))?;
        tx.commit().map_err(store_err)?;
        Ok(true)
    }

    fn count(&self) -> Result<usize, MenteError> {
        let n: i64 = self
            .conn
            .borrow()
            .query_row("SELECT COUNT(*) FROM memories", [], |r| r.get(0))
            .map_err(store_err)?;
        Ok(n as usize)
    }

    fn all_memory_ids(&self) -> Result<Vec<MemoryId>, MenteError> {
        let ids = rows(
            &self.conn.borrow(),
            "SELECT id FROM memories",
            Vec::new(),
            one_text,
        )?;
        Ok(ids.iter().map(|id| parse_id_or_nil(id)).collect())
    }

    // --- edges -------------------------------------------------------------

    fn add_edge(&self, edge: &MemoryEdge) -> Result<(), MenteError> {
        self.perform(writes::add_edge(edge))
    }

    fn edges_for(&self, id: MemoryId, dir: Direction) -> Result<Vec<MemoryEdge>, MenteError> {
        let sql = format!("SELECT {} FROM edges{}", EDGE, edges_condition(dir));
        rows(&self.conn.borrow(), &sql, vec![text(&id_text(&id))], read_edge)
    }

    fn neighbors(
        &self,
        id: MemoryId,
        edge_types: &Option<Vec<EdgeType>>,
        dir: Direction,
    ) -> Result<Vec<MemoryId>, MenteError> {
        Ok(neighbors(&self.edges_for(id, dir)?, id, edge_types, dir))
    }

    fn ids(&self, query: &SqlQuery) -> Result<Vec<MemoryId>, MenteError> {
        let values = query.values.iter().map(bound).collect();
        let found = rows(&self.conn.borrow(), &query.render(), values, one_text)?;
        Ok(collect_ids(&found))
    }

    /// The memories that outgoing edges reach from the roots.
    fn subgraph(
        &self,
        roots: &Vec<MemoryId>,
        max_depth: usize,
        edge_types: &Option<Vec<EdgeType>>,
    ) -> Result<Vec<MemoryId>, MenteError> {
        match subgraph_query(roots, max_depth, edge_types) {
            Some(query) => self.ids(&query),
            None => Ok(Vec::new()),
        }
    }

    fn delete_edges_for(&self, id: MemoryId) -> Result<(), MenteError> {
        let mut conn = self.conn.borrow_mut();
        let tx = conn.transaction().map_err(store_err)?;
        let mut deleted = 0;
        for step in writes::delete_edges_for(id) {
            deleted = perform(&tx, step)?;
        }
        perform(&tx, writes::delete_edges_record(id, deleted))?;
        tx.commit().map_err(store_err)
    }

    // --- provenance, conversations, runs -----------------------------------

    fn memory_sources(&self, id: MemoryId) -> Result<Vec<MemorySource>, MenteError> {
        let sql = format!(
            "SELECT {} FROM memory_sources WHERE memory_id = ?1 ORDER BY created_at DESC",
            SOURCE
        );
        rows(&self.conn.borrow(), &sql, vec![text(&id_text(&id))], read_source)
    }

    fn upsert_conversation(&self, conversation: &ConversationRecord) -> Result<(), MenteError> {
        let mut plan = Vec::new();
        writes::upsert_conversation_on(conversation, &mut plan);
        self.perform(plan)
    }

    fn add_conversation_event(&self, event: &ConversationEvent) -> Result<(), MenteError> {
        self.perform(writes::add_conversation_event(event))
    }

    fn conversation_events(
        &self,
        conversation_id: &str,
        limit: usize,
    ) -> Result<Vec<ConversationEvent>, MenteError> {
        let sql = format!(
            "SELECT {} FROM conversation_events WHERE conversation_id = ?1
             ORDER BY observed_at ASC, created_at ASC LIMIT ?2",
            EVENT
        );
        let values = vec![text(conversation_id), Value::Integer(usize_to_i64(limit)?)];
        rows(&self.conn.borrow(), &sql, values, read_event)
    }

    fn upsert_extraction_run(&self, run: &ExtractionRun) -> Result<(), MenteError> {
        let mut plan = Vec::new();
        writes::upsert_extraction_run_on(run, &mut plan);
        self.perform(plan)
    }

    fn recent_extraction_runs(&self, limit: usize) -> Result<Vec<ExtractionRun>, MenteError> {
        let sql = format!(
            "SELECT {} FROM extraction_runs ORDER BY started_at DESC LIMIT ?1",
            RUN
        );
        let values = vec![Value::Integer(usize_to_i64(limit)?)];
        rows(&self.conn.borrow(), &sql, values, read_extraction_run)
    }

    fn extraction_runs_for_memory(
        &self,
        memory_id: MemoryId,
    ) -> Result<Vec<ExtractionRun>, MenteError> {
        let sql = format!(
            "SELECT {} FROM extraction_runs WHERE source_memory_id = ?1 ORDER BY started_at DESC",
            RUN
        );
        let values = vec![text(&id_text(&memory_id))];
        rows(&self.conn.borrow(), &sql, values, read_extraction_run)
    }

    // --- entities ----------------------------------------------------------

    fn upsert_entity(&self, entity: &EntityRecord) -> Result<(), MenteError> {
        let mut plan = Vec::new();
        writes::upsert_entity_on(entity, &mut plan);
        self.perform(plan)
    }

    fn add_entity_alias(&self, alias: &EntityAlias) -> Result<(), MenteError> {
        let mut plan = Vec::new();
        writes::add_entity_alias_on(alias, &mut plan);
        self.perform(plan)
    }

    fn entities_by_alias(&self, alias: &str) -> Result<Vec<EntityRecord>, MenteError> {
        let sql = format!(
            "SELECT {} FROM entity_aliases a JOIN entities e ON e.entity_id = a.entity_id
             WHERE a.alias = ?1 ORDER BY a.confidence DESC, e.updated_at DESC",
            ENTITY
        );
        rows(&self.conn.borrow(), &sql, vec![text(alias)], read_entity)
    }

    fn link_memory_entity(&self, link: &MemoryEntityLink) -> Result<(), MenteError> {
        let mut plan = Vec::new();
        writes::link_memory_entity_on(link, &mut plan);
        self.perform(plan)
    }

    fn upsert_entity_bundle(
        &self,
        entities: &Vec<EntityRecord>,
        aliases: &Vec<EntityAlias>,
        links: &Vec<MemoryEntityLink>,
    ) -> Result<(), MenteError> {
        self.perform(writes::upsert_entity_bundle(entities, aliases, links))
    }

    fn memory_entity_links(&self, id: MemoryId) -> Result<Vec<MemoryEntityLink>, MenteError> {
        let sql = format!(
            "SELECT {} FROM memory_entities WHERE memory_id = ?1
             ORDER BY confidence DESC, entity_id ASC",
            LINK
        );
        rows(&self.conn.borrow(), &sql, vec![text(&id_text(&id))], read_link)
    }

    // --- claims and relationships ------------------------------------------

    fn upsert_claim_bundle(
        &self,
        claim: &ClaimRecord,
        entities: &Vec<ClaimEntityLink>,
        evidence: &Vec<ClaimEvidence>,
    ) -> Result<(), MenteError> {
        self.perform(writes::upsert_claim_bundle(claim, entities, evidence))
    }

    fn claims_for_entity(&self, entity_id: &str) -> Result<Vec<ClaimRecord>, MenteError> {
        let sql = format!(
            "SELECT {} FROM claims c JOIN claim_entities ce ON ce.claim_id = c.claim_id
             WHERE ce.entity_id = ?1 ORDER BY c.updated_at DESC",
            CLAIM
        );
        rows(&self.conn.borrow(), &sql, vec![text(entity_id)], read_claim)
    }

    fn claims_for_memory(&self, memory_id: MemoryId) -> Result<Vec<ClaimRecord>, MenteError> {
        let sql = format!(
            "SELECT DISTINCT {} FROM claims c JOIN claim_evidence ev ON ev.claim_id = c.claim_id
             WHERE ev.memory_id = ?1 ORDER BY c.updated_at DESC",
            CLAIM
        );
        rows(&self.conn.borrow(), &sql, vec![text(&id_text(&memory_id))], read_claim)
    }

    fn claim_evidence(&self, claim_id: &str) -> Result<Vec<ClaimEvidence>, MenteError> {
        let sql = format!(
            "SELECT {} FROM claim_evidence WHERE claim_id = ?1
             ORDER BY confidence DESC, created_at ASC",
            CLAIM_EVIDENCE
        );
        rows(&self.conn.borrow(), &sql, vec![text(claim_id)], read_claim_evidence)
    }

    fn upsert_relationship_bundle(
        &self,
        relationship: &EntityRelationship,
        evidence: &Vec<RelationshipEvidence>,
    ) -> Result<(), MenteError> {
        self.perform(writes::upsert_relationship_bundle(relationship, evidence))
    }

    fn relationships_for_entity(
        &self,
        entity_id: &str,
    ) -> Result<Vec<EntityRelationship>, MenteError> {
        let sql = format!(
            "SELECT {} FROM entity_relationships r
             WHERE r.source_entity_id = ?1 OR r.target_entity_id = ?1
             ORDER BY r.updated_at DESC",
            RELATIONSHIP
        );
        rows(&self.conn.borrow(), &sql, vec![text(entity_id)], read_relationship)
    }

    fn relationship_evidence(
        &self,
        relationship_id: &str,
    ) -> Result<Vec<RelationshipEvidence>, MenteError> {
        let sql = format!(
            "SELECT {} FROM relationship_evidence WHERE relationship_id = ?1
             ORDER BY confidence DESC, created_at ASC",
            RELATIONSHIP_EVIDENCE
        );
        let values = vec![text(relationship_id)];
        rows(&self.conn.borrow(), &sql, values, read_relationship_evidence)
    }

    // --- audit and traces --------------------------------------------------

    fn recent_operations(&self, limit: usize) -> Result<Vec<MemoryOperation>, MenteError> {
        rows(
            &self.conn.borrow(),
            "SELECT operation_id, operation_type, memory_id, source, target, payload_json,
                    created_at
             FROM memory_operations ORDER BY created_at DESC LIMIT ?1",
            vec![Value::Integer(usize_to_i64(limit)?)],
            read_operation,
        )
    }

    fn recent_retrieval_traces(&self, limit: usize) -> Result<Vec<RetrievalTrace>, MenteError> {
        rows(
            &self.conn.borrow(),
            "SELECT trace_id, query_text, query_embedding_dim, k, fetch_k, tags_json, tags_or,
                    time_start, time_end, candidate_count, result_count, created_at
             FROM retrieval_traces ORDER BY created_at DESC LIMIT ?1",
            vec![Value::Integer(usize_to_i64(limit)?)],
            read_trace,
        )
    }

    fn retrieval_trace_hits(
        &self,
        trace_id: &str,
    ) -> Result<Vec<RetrievalTraceHit>, MenteError> {
        rows(
            &self.conn.borrow(),
            "SELECT trace_id, rank, memory_id, score, vector_rank, bm25_rank, salience
             FROM retrieval_trace_hits WHERE trace_id = ?1 ORDER BY rank ASC",
            vec![text(trace_id)],
            read_trace_hit,
        )
    }

    fn record_retrieval_trace(
        &self,
        header: TraceHeader,
        hits: &[TraceHit],
        config: &RetrievalConfig,
    ) -> Result<(), MenteError> {
        let created_at = time_to_column(now_us());
        let trace = TraceRow { trace_id: fresh_text(), header, created_at };
        let mut conn = self.conn.borrow_mut();
        let tx = conn.transaction().map_err(store_err)?;
        let mut hit_rows = Vec::with_capacity(hits.len());
        for hit in hits {
            let salience = first(
                &tx,
                "SELECT salience FROM memories WHERE id = ?1",
                vec![text(&id_text(&hit.memory_id))],
                |r| single_at(r, 0),
            )?;
            hit_rows.push(encode_trace_hit(hit, &trace.trace_id, salience));
        }
        for step in writes::record_retrieval_trace(&trace, config, &hit_rows) {
            perform(&tx, step)?;
        }
        usize_to_i64(config.trace_retention_limit)?;
        let traces = rows(
            &tx,
            "SELECT trace_id FROM retrieval_traces ORDER BY created_at DESC",
            Vec::new(),
            one_text,
        )?;
        let stale = stale_traces(&traces, config.trace_retention_limit);
        for step in writes::purge_old_traces(&stale) {
            perform(&tx, step)?;
        }
        tx.commit().map_err(store_err)
    }

    // --- search ------------------------------------------------------------

    /// The nearest memories with their similarities.
    fn knn(&self, query: &[f32], k: usize) -> Result<Vec<(MemoryId, f32)>, MenteError> {
        if !knn_runs(k, query.len(), self.embedding_dim()) {
            return Ok(Vec::new());
        }
        let conn = self.conn.borrow();
        let wanted = normalize(query);
        let mut hits = rows(&conn, "SELECT rowid, embedding FROM memory_vec", Vec::new(), |r| {
            Ok((r.get::<_, i64>(0)?, r.get::<_, Vec<u8>>(1)?))
        })?
        .into_iter()
        .map(|(row, blob)| (row, distance(&wanted, &floats(&blob_to_embedding(&blob)))))
        .collect::<Vec<(i64, f64)>>();
        hits.sort_by(|a, b| a.1.total_cmp(&b.1));
        hits.truncate(k);
        let mut ids: Vec<Option<String>> = Vec::with_capacity(hits.len());
        for (row, _) in &hits {
            ids.push(
                conn.query_row("SELECT id FROM memories WHERE rowid = ?1", [row], |r| r.get(0))
                    .optional()
                    .map_err(store_err)?,
            );
        }
        Ok(knn_rows(&ids)
            .into_iter()
            .map(|(i, id)| (id, l2_distance_to_similarity(hits[i].1)))
            .collect())
    }

    fn ids_matching_tags(&self, tags: &Vec<String>, or: bool) -> Result<Vec<MemoryId>, MenteError> {
        match tags_query(tags, or) {
            Some(query) => self.ids(&query),
            None => Ok(Vec::new()),
        }
    }

    fn ids_matching_time(
        &self,
        start: Timestamp,
        end: Timestamp,
    ) -> Result<Vec<MemoryId>, MenteError> {
        let mut found = Vec::new();
        for window in time_windows(start, end) {
            found.extend(rows(
                &self.conn.borrow(),
                "SELECT id FROM memories WHERE created_at >= ?1 AND created_at <= ?2",
                vec![Value::Integer(window.from), Value::Integer(window.to)],
                one_text,
            )?);
        }
        Ok(collect_ids(&found))
    }

    fn vector_search_filtered(
        &self,
        query: &[f32],
        candidates: &Vec<MemoryId>,
        k: usize,
    ) -> Result<Vec<MemoryId>, MenteError> {
        let Some(select) = candidates_query(candidates, k) else {
            return Ok(Vec::new());
        };
        let values = select.values.iter().map(bound).collect();
        let found = rows(&self.conn.borrow(), &select.render(), values, |r| {
            Ok((r.get::<_, String>(0)?, r.get::<_, Vec<u8>>(1)?))
        })?;
        let wanted = normalize(query);
        let mut scored = Vec::with_capacity(found.len());
        for (id, blob) in found {
            check_blob(&blob);
            let score = dot(&wanted, &normalize(&floats(&blob_to_embedding(&blob))));
            scored.push(ScoredHit { id: parse_id_or_nil(&id), score: single(score) });
        }
        Ok(nearest_ids(scored, k))
    }

    /// The memories that match a text, best first; none for a malformed text.
    fn fts_search(&self, query_text: &str, k: usize) -> Result<Vec<MemoryId>, MenteError> {
        let conn = self.conn.borrow();
        let mut stmt = conn
            .prepare(
                "SELECT m.id FROM memories_fts f JOIN memories m ON m.rowid = f.rowid
                 WHERE memories_fts MATCH ?1 ORDER BY bm25(memories_fts) LIMIT ?2",
            )
            .map_err(store_err)?;
        let values = [text(query_text), Value::Integer(k as i64)];
        let ids: Vec<Option<String>> =
            match stmt.query_map(params_from_iter(values), |r| r.get::<_, String>(0)) {
                Ok(found) => found.map(Result::ok).collect(),
                Err(_) => Vec::new(),
            };
        Ok(fts_rows(&ids))
    }

    fn salience_of(&self, id: MemoryId) -> Result<Option<mentedb::float::Single>, MenteError> {
        first(
            &self.conn.borrow(),
            "SELECT salience FROM memories WHERE id = ?1",
            vec![text(&id_text(&id))],
            |r| single_at(r, 0),
        )
    }

    fn hybrid_search(
        &self,
        query_embedding: &[f32],
        tags: Option<Vec<String>>,
        time_range: Option<(Timestamp, Timestamp)>,
        k: usize,
    ) -> Result<Vec<ScoredHit>, MenteError> {
        self.hybrid_search_with_query_mode(query_embedding, None, tags, false, time_range, k)
    }

    fn hybrid_search_with_query(
        &self,
        query_embedding: &[f32],
        query_text: Option<String>,
        tags: Option<Vec<String>>,
        time_range: Option<(Timestamp, Timestamp)>,
        k: usize,
    ) -> Result<Vec<ScoredHit>, MenteError> {
        self.hybrid_search_with_query_mode(query_embedding, query_text, tags, false, time_range, k)
    }

    /// The search: vectors and texts, fused by rank, within the filters.
    fn hybrid_search_with_query_mode(
        &self,
        query_embedding: &[f32],
        query_text: Option<String>,
        tags: Option<Vec<String>>,
        tags_or: bool,
        time_range: Option<(Timestamp, Timestamp)>,
        k: usize,
    ) -> Result<Vec<ScoredHit>, MenteError> {
        let embedding_len = query_embedding.len();
        let request = SearchRequest { embedding_len, query_text, tags, tags_or, time_range, k };
        self.search(query_embedding, request)
    }

    /// The search for a request that describes the query embedding.
    fn search(
        &self,
        query_embedding: &[f32],
        request: SearchRequest,
    ) -> Result<Vec<ScoredHit>, MenteError> {
        let config = self.retrieval_config;
        let Some(search) = HybridSearch::begin(request, config.fetch_multiplier) else {
            return Ok(Vec::new());
        };
        let fetch_k = search.fetch_k;
        let search = self.filter(search)?;
        let mut vector_hits = Vec::new();
        if search.reads_hits() {
            vector_hits = match &search.candidates {
                Some(ids) => self.vector_search_filtered(query_embedding, ids, fetch_k)?,
                None => {
                    let near = self.knn(query_embedding, fetch_k)?;
                    near.into_iter().map(|(id, _)| id).collect()
                }
            };
        }
        let text_hits = match &search.search.request.query_text {
            Some(words) if search.reads_text() => self.fts_search(words, fetch_k)?,
            _ => Vec::new(),
        };
        self.finish(search.found(vector_hits, text_hits), &config)
    }

    /// The memories that the filters of a request admit, by their salience.
    fn scan(&self, request: SearchRequest) -> Result<Vec<ScoredHit>, MenteError> {
        let config = self.retrieval_config;
        let Some(search) = HybridSearch::scan(request, config.fetch_multiplier) else {
            return Ok(Vec::new());
        };
        self.finish(self.filter(search)?.scanned(), &config)
    }

    fn filter(&self, search: HybridSearch) -> Result<FilteredSearch, MenteError> {
        let by_tags = match &search.request.tags {
            Some(tags) => Some(self.ids_matching_tags(tags, search.request.tags_or)?),
            None => None,
        };
        let by_time = match search.request.time_range {
            Some((start, end)) => Some(self.ids_matching_time(start, end)?),
            None => None,
        };
        Ok(search.filtered(by_tags, by_time))
    }

    fn finish(
        &self,
        search: FusedSearch,
        config: &RetrievalConfig,
    ) -> Result<Vec<ScoredHit>, MenteError> {
        let mut scores = Vec::with_capacity(search.hits.len());
        for hit in &search.hits {
            let salience = salience_for_score(self.salience_of(hit.id)?);
            scores.push(combined_score(&hit.ranks, salience, config));
        }
        let (results, trace) = search.scored(&scores).conclude(self.trace_retrieval.get());
        if let Some((header, hits)) = trace {
            let _ = self.record_retrieval_trace(header, &hits, config);
        }
        Ok(results)
    }
}

/// A storage handle over the store.
struct StorageEngine {
    backend: Backend,
}

impl StorageEngine {
    fn open(path: &Path) -> Result<Self, MenteError> {
        Ok(Self { backend: Backend::open(&path.join("mentedb.sqlite"), 0)? })
    }
    fn store_memory(&self, node: &MemoryNode) -> Result<StorageId, MenteError> {
        if let Some(dim) = provision_one(self.backend.embedding_dim(), node) {
            self.backend.ensure_vector_index(dim)?;
        }
        self.backend.store_memory(node)?;
        Ok(node.id)
    }

    fn store_memory_batch(&self, nodes: &Vec<MemoryNode>) -> Result<Vec<StorageId>, MenteError> {
        if let Some(dim) = provision_batch(self.backend.embedding_dim(), nodes) {
            self.backend.ensure_vector_index(dim)?;
        }
        self.backend.store_memory_batch(nodes)?;
        Ok(stored_ids(nodes))
    }

    fn load_memory(&self, id: StorageId) -> Result<MemoryNode, MenteError> {
        found_memory(self.backend.get_memory(id)?, id)
    }

    fn delete_memory(&self, id: StorageId) -> Result<bool, MenteError> {
        self.backend.delete_memory(id)
    }

    fn scan_all_memories(&self) -> Vec<(MemoryId, StorageId)> {
        scan_all_memories(self.backend.all_memory_ids().ok())
    }

    /// SQLite checkpoints by itself.
    fn checkpoint(&self) -> Result<(), MenteError> {
        Ok(())
    }

    /// Dropping the engine closes the database.
    fn close(&self) -> Result<(), MenteError> {
        Ok(())
    }
}

fn object(name: &str, value: serde_json::Value) -> String {
    let mut out = serde_json::Map::new();
    out.insert(name.to_string(), value);
    serde_json::Value::Object(out).to_string()
}

fn make_node(id: MemoryId, content: &str, embedding: Vec<Single>) -> MemoryNode {
    let mut n = MemoryNode::new(
        AgentId::new(),
        MemoryType::Semantic,
        content.to_string(),
        embedding,
    );
    n.id = id;
    n.tags = vec!["pref".to_string(), "ui".to_string()];
    n.salience = single(0.8);
    n
}

#[test]
fn store_and_get_roundtrips() {
    let db = Backend::open_in_memory(3).unwrap();
    let id = MemoryId::new();
    let node = make_node(id, "User prefers dark mode", singles(&[0.1, 0.2, 0.3]));
    db.store_memory(&node).unwrap();

    let loaded = db.get_memory(id).unwrap().expect("memory should exist");
    assert_eq!(loaded.id, id);
    assert_eq!(loaded.content, "User prefers dark mode");
    assert_eq!(loaded.embedding, singles(&[0.1, 0.2, 0.3]));
    assert_eq!(loaded.memory_type, MemoryType::Semantic);
    assert_eq!(loaded.salience, single(0.8));
    assert_eq!(loaded.tags, vec!["pref".to_string(), "ui".to_string()]);
    assert_eq!(db.count().unwrap(), 1);
}

#[test]
fn store_upserts_on_same_id() {
    let db = Backend::open_in_memory(2).unwrap();
    let id = MemoryId::new();
    db.store_memory(&make_node(id, "first", singles(&[1.0, 0.0])))
        .unwrap();
    db.store_memory(&make_node(id, "second", singles(&[0.0, 1.0])))
        .unwrap();
    assert_eq!(db.count().unwrap(), 1);
    let loaded = db.get_memory(id).unwrap().unwrap();
    assert_eq!(loaded.content, "second");
    assert_eq!(loaded.embedding, singles(&[0.0, 1.0]));
}

#[test]
fn delete_removes_memory_and_vector() {
    let db = Backend::open_in_memory(2).unwrap();
    let id = MemoryId::new();
    db.store_memory(&make_node(id, "gone", singles(&[1.0, 0.0])))
        .unwrap();
    assert!(db.delete_memory(id).unwrap());
    assert!(db.get_memory(id).unwrap().is_none());
    assert!(db.knn(&[1.0, 0.0], 5).unwrap().is_empty());
}

#[test]
fn knn_returns_nearest_first() {
    let db = Backend::open_in_memory(2).unwrap();
    let a = MemoryId::new();
    let b = MemoryId::new();
    let c = MemoryId::new();
    // Three points on the unit circle.
    db.store_memory(&make_node(a, "east", singles(&[1.0, 0.0])))
        .unwrap();
    db.store_memory(&make_node(b, "north", singles(&[0.0, 1.0])))
        .unwrap();
    db.store_memory(&make_node(c, "sw", singles(&[-0.7, -0.7])))
        .unwrap();

    // Query near "east": a must rank first, c last.
    let hits = db.knn(&[0.9, 0.1], 3).unwrap();
    assert_eq!(hits.len(), 3);
    assert_eq!(hits[0].0, a, "east should be nearest");
    assert!(
        hits[0].1 > 0.95,
        "east similarity should be ~1, got {}",
        hits[0].1
    );
    assert_eq!(hits[2].0, c, "sw should be farthest");
    assert!(hits[2].1 < hits[0].1);
}

#[test]
fn rejects_mismatched_embedding_dimension() {
    let db = Backend::open_in_memory(3).unwrap();
    let id = MemoryId::new();
    let res = db.store_memory(&make_node(id, "bad", singles(&[0.1, 0.2])));
    assert!(matches!(
        res,
        Err(MenteError::EmbeddingDimensionMismatch {
            got: 2,
            expected: 3
        })
    ));
}

#[test]
fn open_file_backed_persists_across_reopen() {
    let dir = tempfile::tempdir().unwrap();
    let path = dir.path().join("mem.sqlite");
    let id = MemoryId::new();
    {
        let db = Backend::open(&path, 2).unwrap();
        db.store_memory(&make_node(id, "persisted", singles(&[1.0, 0.0])))
            .unwrap();
    }
    let db = Backend::open(&path, 2).unwrap();
    let loaded = db.get_memory(id).unwrap().expect("should survive reopen");
    assert_eq!(loaded.content, "persisted");
}

fn edge(src: MemoryId, tgt: MemoryId, et: EdgeType, w: f32) -> MemoryEdge {
    MemoryEdge {
        source: src,
        target: tgt,
        edge_type: et,
        weight: single(w),
        created_at: 1000,
        valid_from: None,
        valid_until: None,
        label: None,
    }
}

#[test]
fn edges_roundtrip_and_directions() {
    let db = Backend::open_in_memory(2).unwrap();
    let a = MemoryId::new();
    let b = MemoryId::new();
    let c = MemoryId::new();
    db.add_edge(&edge(a, b, EdgeType::Related, 0.5)).unwrap();
    db.add_edge(&edge(c, a, EdgeType::Supports, 0.9)).unwrap();

    let out = db.edges_for(a, Direction::Outgoing).unwrap();
    assert_eq!(out.len(), 1);
    assert_eq!(out[0].target, b);

    let inc = db.edges_for(a, Direction::Incoming).unwrap();
    assert_eq!(inc.len(), 1);
    assert_eq!(inc[0].source, c);

    let both = db.edges_for(a, Direction::Both).unwrap();
    assert_eq!(both.len(), 2);
}

#[test]
fn neighbors_filtered_by_edge_type() {
    let db = Backend::open_in_memory(2).unwrap();
    let a = MemoryId::new();
    let b = MemoryId::new();
    let c = MemoryId::new();
    db.add_edge(&edge(a, b, EdgeType::Related, 0.5)).unwrap();
    db.add_edge(&edge(a, c, EdgeType::Contradicts, 0.9))
        .unwrap();

    let related = db
        .neighbors(a, &Some(vec![EdgeType::Related]), Direction::Outgoing)
        .unwrap();
    assert_eq!(related, vec![b]);

    let contradicts = db
        .neighbors(a, &Some(vec![EdgeType::Contradicts]), Direction::Outgoing)
        .unwrap();
    assert_eq!(contradicts, vec![c]);

    let all = db.neighbors(a, &None, Direction::Outgoing).unwrap();
    assert_eq!(all.len(), 2);
}

#[test]
fn subgraph_traverses_outgoing_edges() {
    let db = Backend::open_in_memory(2).unwrap();
    // Chain a -> b -> c, plus a -> d (unrelated type to filter out).
    let a = MemoryId::new();
    let b = MemoryId::new();
    let c = MemoryId::new();
    let d = MemoryId::new();
    db.add_edge(&edge(a, b, EdgeType::Caused, 1.0)).unwrap();
    db.add_edge(&edge(b, c, EdgeType::Caused, 1.0)).unwrap();
    db.add_edge(&edge(a, d, EdgeType::Related, 0.1)).unwrap();

    // Follow Caused only, from a, depth 5: reaches {a, b, c}, excludes d.
    let reach = db.subgraph(&vec![a], 5, &Some(vec![EdgeType::Caused])).unwrap();
    assert!(reach.contains(&a));
    assert!(reach.contains(&b));
    assert!(reach.contains(&c));
    assert!(!reach.contains(&d), "Related edge to d must be excluded");

    // Depth cap: depth 0 reaches only the root.
    let depth0 = db.subgraph(&vec![a], 0, &None).unwrap();
    assert_eq!(depth0.len(), 1);
    assert!(depth0.contains(&a));
}

#[test]
fn delete_edges_for_removes_both_directions() {
    let db = Backend::open_in_memory(2).unwrap();
    let a = MemoryId::new();
    let b = MemoryId::new();
    db.add_edge(&edge(a, b, EdgeType::Related, 0.5)).unwrap();
    db.delete_edges_for(a).unwrap();
    assert!(db.edges_for(a, Direction::Both).unwrap().is_empty());
    assert!(db.edges_for(b, Direction::Both).unwrap().is_empty());
}

#[test]
fn batch_store_and_all_ids() {
    let db = Backend::open_in_memory(2).unwrap();
    let ids: Vec<MemoryId> = (0..3).map(|_| MemoryId::new()).collect();
    let nodes: Vec<MemoryNode> = ids
        .iter()
        .enumerate()
        .map(|(i, id)| make_node(*id, &format!("n{i}"), singles(&[i as f32, 1.0])))
        .collect();
    db.store_memory_batch(&nodes).unwrap();
    let mut all = db.all_memory_ids().unwrap();
    all.sort_by_key(|id| id.value);
    let mut expected = ids.clone();
    expected.sort_by_key(|id| id.value);
    assert_eq!(all, expected);
    assert_eq!(db.count().unwrap(), 3);
}

#[test]
fn batch_rejects_bad_dimension_before_writing() {
    let db = Backend::open_in_memory(2).unwrap();
    let good = make_node(MemoryId::new(), "ok", singles(&[1.0, 1.0]));
    let bad = make_node(MemoryId::new(), "bad", singles(&[1.0, 1.0, 1.0]));
    let res = db.store_memory_batch(&vec![good, bad]);
    assert!(res.is_err());
    // Nothing should have been written.
    assert_eq!(db.count().unwrap(), 0);
}

#[test]
fn hybrid_vector_only_ranks_nearest_first() {
    let db = Backend::open_in_memory(2).unwrap();
    let a = MemoryId::new();
    let b = MemoryId::new();
    db.store_memory(&make_node(a, "east text", singles(&[1.0, 0.0])))
        .unwrap();
    db.store_memory(&make_node(b, "north text", singles(&[0.0, 1.0])))
        .unwrap();

    let res = db.hybrid_search(&[0.95, 0.05], None, None, 2).unwrap();
    assert_eq!(res.len(), 2);
    assert_eq!(res[0].id, a, "east should rank first");
}

#[test]
fn hybrid_with_bm25_finds_by_keyword() {
    let db = Backend::open_in_memory(2).unwrap();
    let a = MemoryId::new();
    let b = MemoryId::new();
    // `a` is vector-far but keyword-matches "postgres"; `b` is vector-close
    // but has no matching keyword. RRF must still surface `a`.
    db.store_memory(&make_node(a, "postgres database migration", singles(&[0.0, 1.0])))
        .unwrap();
    db.store_memory(&make_node(b, "unrelated content", singles(&[1.0, 0.0])))
        .unwrap();

    let res = db
        .hybrid_search_with_query(&[1.0, 0.0], Some("postgres".to_string()), None, None, 2)
        .unwrap();
    assert!(
        res.iter().any(|hit| hit.id == a),
        "bm25 match should surface a despite low vector similarity"
    );
}

#[test]
fn write_operations_are_recorded() {
    let db = Backend::open_in_memory(2).unwrap();
    let a = MemoryId::new();
    let b = MemoryId::new();
    db.store_memory(&make_node(a, "alpha", singles(&[1.0, 0.0])))
        .unwrap();
    db.add_edge(&edge(a, b, EdgeType::Related, 0.5)).unwrap();
    db.delete_memory(a).unwrap();

    let operations = db.recent_operations(10).unwrap();
    assert!(
        operations
            .iter()
            .any(|op| op.operation_type == "memory_upsert")
    );
    assert!(
        operations
            .iter()
            .any(|op| op.operation_type == "edge_insert")
    );
    assert!(
        operations
            .iter()
            .any(|op| op.operation_type == "memory_delete")
    );
}

#[test]
fn memory_sources_roundtrip_with_store() {
    let db = Backend::open_in_memory(2).unwrap();
    let id = MemoryId::new();
    let node = make_node(id, "source tracked", singles(&[1.0, 0.0]));
    let mut source = MemorySource::new(id, "conversation_turn");
    source.conversation_id = Some("conv-1".to_string());
    source.turn_id = Some("turn-7".to_string());
    source.actor_id = Some("user".to_string());
    source.payload_json = object("raw", serde_json::Value::from("source tracked"));

    db.store_memory_with_source(&node, &source).unwrap();

    let sources = db.memory_sources(id).unwrap();
    assert_eq!(sources.len(), 1);
    assert_eq!(sources[0].source_type, "conversation_turn");
    assert_eq!(sources[0].conversation_id.as_deref(), Some("conv-1"));

    let operations = db.recent_operations(10).unwrap();
    assert!(
        operations
            .iter()
            .any(|op| op.operation_type == "memory_source_upsert")
    );
}

#[test]
fn entities_aliases_and_memory_links_roundtrip() {
    let db = Backend::open_in_memory(2).unwrap();
    let id = MemoryId::new();
    db.store_memory(&make_node(id, "Synapse uses MCP", singles(&[1.0, 0.0])))
        .unwrap();

    let mut entity = EntityRecord::new("project", "Synapse");
    entity.confidence = single(0.95);
    let entity_id = entity.entity_id.clone();
    db.upsert_entity(&entity).unwrap();
    db.add_entity_alias(&EntityAlias {
        entity_id: entity_id.clone(),
        alias: "synapse".to_string(),
        source: Some("test".to_string()),
        confidence: single(0.9),
    })
    .unwrap();
    db.link_memory_entity(&MemoryEntityLink {
        memory_id: id,
        entity_id: entity_id.clone(),
        role: Some("subject".to_string()),
        confidence: single(0.88),
        evidence: Some("Synapse".to_string()),
    })
    .unwrap();

    let by_alias = db.entities_by_alias("synapse").unwrap();
    assert_eq!(by_alias.len(), 1);
    assert_eq!(by_alias[0].canonical, "Synapse");

    let links = db.memory_entity_links(id).unwrap();
    assert_eq!(links.len(), 1);
    assert_eq!(links[0].entity_id, entity_id);
    assert_eq!(links[0].role.as_deref(), Some("subject"));
}

#[test]
fn conversation_events_roundtrip() {
    let db = Backend::open_in_memory(2).unwrap();
    let mut conversation = ConversationRecord::new("conv-1");
    conversation.title = Some("Synapse planning".to_string());
    conversation.metadata_json = object("source", serde_json::Value::from("test"));
    db.upsert_conversation(&conversation).unwrap();

    let mut join = ConversationEvent::new("conv-1", "participant_joined");
    join.actor_id = Some("pratap".to_string());
    join.payload_json = object("role", serde_json::Value::from("owner"));
    join.observed_at = 10;
    let mut message = ConversationEvent::new("conv-1", "user_message");
    message.turn_id = Some("turn-1".to_string());
    message.actor_id = Some("pratap".to_string());
    message.content = Some("Synapse should remember Flutter preferences".to_string());
    message.observed_at = 20;

    db.add_conversation_event(&message).unwrap();
    db.add_conversation_event(&join).unwrap();

    let events = db.conversation_events("conv-1", 10).unwrap();
    assert_eq!(events.len(), 2);
    assert_eq!(events[0].event_type, "participant_joined");
    assert_eq!(events[1].turn_id.as_deref(), Some("turn-1"));

    let operations = db.recent_operations(10).unwrap();
    assert!(
        operations
            .iter()
            .any(|op| op.operation_type == "conversation_event_upsert")
    );
}

#[test]
fn extraction_runs_roundtrip_with_source_memory() {
    let db = Backend::open_in_memory(2).unwrap();
    let id = MemoryId::new();
    db.store_memory(&make_node(id, "raw episode", singles(&[1.0, 0.0])))
        .unwrap();

    let mut run = ExtractionRun::new("claim_extractor", "v1");
    run.source_memory_id = Some(id);
    run.extractor_version = "2026-07-06".to_string();
    run.model = Some("local-test-model".to_string());
    run.prompt_hash = Some("prompt-sha".to_string());
    run.config_hash = Some("config-sha".to_string());
    run.status = "completed".to_string();
    run.output_json = object("claims", serde_json::Value::from(1));
    run.completed_at = Some(run.started_at + 1);

    db.upsert_extraction_run(&run).unwrap();

    let by_memory = db.extraction_runs_for_memory(id).unwrap();
    assert_eq!(by_memory.len(), 1);
    assert_eq!(by_memory[0].run_id, run.run_id);
    assert_eq!(by_memory[0].status, "completed");

    let recent = db.recent_extraction_runs(10).unwrap();
    assert_eq!(recent[0].extractor, "claim_extractor");
}

#[test]
fn claims_relationships_and_evidence_roundtrip() {
    let db = Backend::open_in_memory(2).unwrap();
    let memory_id = MemoryId::new();
    db.store_memory(&make_node(
        memory_id,
        "Pratap uses Flutter for Synapse.",
        singles(&[1.0, 0.0]),
    ))
    .unwrap();

    let person = EntityRecord::new("person", "Pratap");
    let person_id = person.entity_id.clone();
    let project = EntityRecord::new("project", "Synapse");
    let project_id = project.entity_id.clone();
    let tech = EntityRecord::new("technology", "Flutter");
    let tech_id = tech.entity_id.clone();
    db.upsert_entity_bundle(&vec![person, project, tech], &Vec::new(), &Vec::new())
        .unwrap();

    let mut run = ExtractionRun::new("claim_extractor", "v1");
    run.source_memory_id = Some(memory_id);
    run.status = "completed".to_string();
    db.upsert_extraction_run(&run).unwrap();

    let mut claim = ClaimRecord::new("Pratap uses Flutter for Synapse", "fact");
    claim.subject_entity_id = Some(person_id.clone());
    claim.predicate = Some("uses".to_string());
    claim.object_entity_id = Some(tech_id.clone());
    claim.source_run_id = Some(run.run_id.clone());
    claim.confidence = single(0.92);
    let claim_id = claim.claim_id.clone();

    let mut evidence = ClaimEvidence::new(&claim_id, memory_id);
    evidence.evidence_text = Some("Pratap uses Flutter for Synapse.".to_string());
    evidence.span_start = Some(0);
    evidence.span_end = Some(34);
    evidence.confidence = single(0.9);

    db.upsert_claim_bundle(
        &claim,
        &vec![
            ClaimEntityLink {
                claim_id: claim_id.clone(),
                entity_id: person_id.clone(),
                role: "subject".to_string(),
                confidence: single(0.92),
            },
            ClaimEntityLink {
                claim_id: claim_id.clone(),
                entity_id: tech_id.clone(),
                role: "object".to_string(),
                confidence: single(0.92),
            },
        ],
        &vec![evidence],
    )
    .unwrap();

    let by_entity = db.claims_for_entity(&person_id).unwrap();
    assert_eq!(by_entity.len(), 1);
    assert_eq!(by_entity[0].claim_id, claim_id);

    let by_memory = db.claims_for_memory(memory_id).unwrap();
    assert_eq!(by_memory.len(), 1);
    assert_eq!(by_memory[0].predicate.as_deref(), Some("uses"));

    let evidence_rows = db.claim_evidence(&claim_id).unwrap();
    assert_eq!(evidence_rows.len(), 1);
    assert_eq!(evidence_rows[0].span_start, Some(0));

    let mut relationship = EntityRelationship::new(&project_id, &tech_id, "uses");
    relationship.source_run_id = Some(run.run_id.clone());
    relationship.confidence = single(0.91);
    let relationship_id = relationship.relationship_id.clone();
    let mut relationship_evidence =
        RelationshipEvidence::new(&relationship_id, memory_id);
    relationship_evidence.evidence_text = Some("Synapse uses Flutter".to_string());

    db.upsert_relationship_bundle(&relationship, &vec![relationship_evidence])
        .unwrap();

    let project_relationships = db.relationships_for_entity(&project_id).unwrap();
    assert_eq!(project_relationships.len(), 1);
    assert_eq!(project_relationships[0].relation_type, "uses");

    let rel_evidence = db.relationship_evidence(&relationship_id).unwrap();
    assert_eq!(rel_evidence.len(), 1);

    let operations = db.recent_operations(20).unwrap();
    assert!(
        operations
            .iter()
            .any(|op| op.operation_type == "claim_upsert")
    );
    assert!(
        operations
            .iter()
            .any(|op| op.operation_type == "entity_relationship_upsert")
    );
}

#[test]
fn retrieval_tracing_records_rank_inputs() {
    let db = Backend::open_in_memory(2).unwrap();
    db.set_retrieval_tracing(true);
    let a = MemoryId::new();
    let b = MemoryId::new();
    db.store_memory(&make_node(a, "postgres database migration", singles(&[0.0, 1.0])))
        .unwrap();
    db.store_memory(&make_node(b, "unrelated content", singles(&[1.0, 0.0])))
        .unwrap();

    let res = db
        .hybrid_search_with_query(&[1.0, 0.0], Some("postgres".to_string()), None, None, 2)
        .unwrap();
    assert!(!res.is_empty());

    let traces = db.recent_retrieval_traces(1).unwrap();
    assert_eq!(traces.len(), 1);
    assert_eq!(traces[0].query_text.as_deref(), Some("postgres"));
    assert_eq!(traces[0].result_count, res.len());

    let hits = db.retrieval_trace_hits(&traces[0].trace_id).unwrap();
    assert_eq!(hits.len(), res.len());
    assert!(hits.iter().any(|hit| hit.bm25_rank.is_some()));
}

#[test]
fn hybrid_tag_filter_restricts_results() {
    let db = Backend::open_in_memory(2).unwrap();
    let a = MemoryId::new();
    let b = MemoryId::new();
    let mut na = make_node(a, "alpha", singles(&[1.0, 0.0]));
    na.tags = vec!["x".into()];
    let mut nb = make_node(b, "beta", singles(&[0.9, 0.1]));
    nb.tags = vec!["y".into()];
    db.store_memory(&na).unwrap();
    db.store_memory(&nb).unwrap();

    let res = db
        .hybrid_search(&[1.0, 0.0], Some(vec!["x".to_string()]), None, 10)
        .unwrap();
    assert_eq!(res.len(), 1);
    assert_eq!(res[0].id, a);
}

#[test]
fn hybrid_tag_and_mode_requires_all_tags() {
    let db = Backend::open_in_memory(2).unwrap();
    let a = MemoryId::new();
    let b = MemoryId::new();
    let mut na = make_node(a, "both", singles(&[1.0, 0.0]));
    na.tags = vec!["x".into(), "y".into()];
    let mut nb = make_node(b, "one", singles(&[0.9, 0.1]));
    nb.tags = vec!["x".into()];
    db.store_memory(&na).unwrap();
    db.store_memory(&nb).unwrap();

    // AND mode: only `a` has both x and y.
    let res = db
        .hybrid_search_with_query_mode(&[1.0, 0.0], None, Some(vec!["x".to_string(), "y".to_string()]), false, None, 10)
        .unwrap();
    assert_eq!(res.len(), 1);
    assert_eq!(res[0].id, a);

    // OR mode: both have at least x.
    let res_or = db
        .hybrid_search_with_query_mode(&[1.0, 0.0], None, Some(vec!["x".to_string(), "y".to_string()]), true, None, 10)
        .unwrap();
    assert_eq!(res_or.len(), 2);
}

#[test]
fn hybrid_time_filter_restricts_results() {
    let db = Backend::open_in_memory(2).unwrap();
    let a = MemoryId::new();
    let b = MemoryId::new();
    let mut na = make_node(a, "old", singles(&[1.0, 0.0]));
    na.created_at = 100;
    let mut nb = make_node(b, "new", singles(&[0.9, 0.1]));
    nb.created_at = 500;
    db.store_memory(&na).unwrap();
    db.store_memory(&nb).unwrap();

    let res = db
        .hybrid_search(&[1.0, 0.0], None, Some((400, 600)), 10)
        .unwrap();
    assert_eq!(res.len(), 1);
    assert_eq!(res[0].id, b);
}

#[test]
fn deferred_index_backfills_on_ensure_vector_index() {
    // Open with dim 0 (no embedder configured yet): embeddings are still
    // stored, but there is no vector index so KNN returns nothing.
    let dir = tempfile::tempdir().unwrap();
    let path = dir.path().join("mem.sqlite");
    let id = MemoryId::new();

    {
        let db = Backend::open(&path, 0).unwrap();
        assert_eq!(db.embedding_dim(), 0);
        db.store_memory(&make_node(id, "deferred", singles(&[1.0, 0.0])))
            .unwrap();
        // No vec0 yet, KNN is unavailable.
        assert!(db.knn(&[1.0, 0.0], 5).unwrap().is_empty());
        // Configuring the embedder builds the index and backfills.
        db.ensure_vector_index(2).unwrap();
        assert_eq!(db.embedding_dim(), 2);
        let hits = db.knn(&[1.0, 0.0], 5).unwrap();
        assert_eq!(hits.len(), 1);
        assert_eq!(hits[0].0, id);
    }

    // On reopen the stored dim wins, so the index is ready immediately.
    let db = Backend::open(&path, 0).unwrap();
    assert_eq!(db.embedding_dim(), 2);
    let hits = db.knn(&[1.0, 0.0], 5).unwrap();
    assert_eq!(hits.len(), 1);
    assert_eq!(hits[0].0, id);
}

#[test]
fn stores_loads_and_scans_memories() {
    let dir = tempfile::tempdir().unwrap();
    let engine = StorageEngine::open(dir.path()).unwrap();
    let node = MemoryNode::new(
        AgentId::new(),
        MemoryType::Episodic,
        "The user prefers Rust over Go".to_string(),
        singles(&[0.1, 0.2, 0.3, 0.4]),
    );

    let id = engine.store_memory(&node).unwrap();
    let loaded = engine.load_memory(id).unwrap();

    assert_eq!(node.id, loaded.id);
    assert_eq!(node.content, loaded.content);
    assert_eq!(engine.scan_all_memories(), vec![(node.id, node.id)]);
}

#[test]
fn persists_across_reopen() {
    let dir = tempfile::tempdir().unwrap();
    let node = MemoryNode::new(
        AgentId::new(),
        MemoryType::Semantic,
        "persisted memory".to_string(),
        singles(&[1.0, 0.0]),
    );
    let id = node.id;

    {
        let engine = StorageEngine::open(dir.path()).unwrap();
        engine.store_memory(&node).unwrap();
        engine.close().unwrap();
    }
    {
        let engine = StorageEngine::open(dir.path()).unwrap();
        let loaded = engine.load_memory(id).unwrap();
        assert_eq!(loaded.content, "persisted memory");
    }
}

#[test]
fn test_store_and_load_memory() {
    let dir = tempfile::tempdir().unwrap();
    let engine = StorageEngine::open(dir.path()).unwrap();

    let node = MemoryNode::new(
        AgentId::new(),
        MemoryType::Episodic,
        "The user prefers Rust over Go".to_string(),
        singles(&[0.1, 0.2, 0.3, 0.4]),
    );

    let storage_id = engine.store_memory(&node).unwrap();
    let loaded = engine.load_memory(storage_id).unwrap();

    assert_eq!(storage_id, node.id);
    assert_eq!(node.id, loaded.id);
    assert_eq!(node.content, loaded.content);
    assert_eq!(node.embedding, loaded.embedding);
    assert_eq!(node.memory_type, loaded.memory_type);
    assert_eq!(node.agent_id, loaded.agent_id);
}

#[test]
fn test_multiple_memories() {
    let dir = tempfile::tempdir().unwrap();
    let engine = StorageEngine::open(dir.path()).unwrap();

    let nodes: Vec<MemoryNode> = (0..10)
        .map(|i| {
            MemoryNode::new(
                AgentId::new(),
                MemoryType::Semantic,
                format!("memory #{i}"),
                singles(&[i as f32; 4]),
            )
        })
        .collect();

    let storage_ids = engine.store_memory_batch(&nodes).unwrap();

    for (node, storage_id) in nodes.iter().zip(storage_ids.iter()) {
        let loaded = engine.load_memory(*storage_id).unwrap();
        assert_eq!(node.id, loaded.id);
        assert_eq!(node.content, loaded.content);
        assert_eq!(node.embedding, loaded.embedding);
    }
}

#[test]
fn test_persist_across_reopen() {
    let dir = tempfile::tempdir().unwrap();

    let node = MemoryNode::new(
        AgentId::new(),
        MemoryType::Procedural,
        "persisted memory".to_string(),
        singles(&[3.14, 2.72]),
    );
    let id = node.id;

    {
        let engine = StorageEngine::open(dir.path()).unwrap();
        engine.store_memory(&node).unwrap();
        engine.close().unwrap();
    }
    {
        let engine = StorageEngine::open(dir.path()).unwrap();
        let loaded = engine.load_memory(id).unwrap();
        assert_eq!(loaded.id, id);
        assert_eq!(loaded.content, "persisted memory");
    }
}

#[test]
fn test_checkpoint_and_reload() {
    let dir = tempfile::tempdir().unwrap();

    let node = MemoryNode::new(
        AgentId::new(),
        MemoryType::AntiPattern,
        "do not use global state".to_string(),
        singles(&[0.0, 1.0]),
    );
    let id = node.id;

    {
        let engine = StorageEngine::open(dir.path()).unwrap();
        engine.store_memory(&node).unwrap();
        engine.checkpoint().unwrap();
        engine.close().unwrap();
    }
    {
        let engine = StorageEngine::open(dir.path()).unwrap();
        let loaded = engine.load_memory(id).unwrap();
        assert_eq!(loaded.id, id);
        assert_eq!(loaded.content, "do not use global state");
    }
}

#[test]
fn a_second_store_keeps_the_time_of_creation() {
    let db = Backend::open_in_memory(2).unwrap();
    let id = MemoryId::new();
    let mut node = make_node(id, "first", singles(&[1.0, 0.0]));
    node.created_at = 7;
    node.tags = vec!["b".to_string(), "a".to_string(), "b".to_string()];
    db.store_memory(&node).unwrap();
    assert_eq!(db.get_memory(id).unwrap().unwrap().tags, vec!["a".to_string(), "b".to_string()]);
    node.created_at = 9;
    node.tags = vec!["c".to_string()];
    db.store_memory(&node).unwrap();
    let loaded = db.get_memory(id).unwrap().unwrap();
    assert_eq!(loaded.created_at, 7);
    assert_eq!(loaded.tags, vec!["c".to_string()]);
}

#[test]
fn deleting_a_memory_takes_what_hangs_on_it() {
    let db = Backend::open_in_memory(2).unwrap();
    let (a, b) = (MemoryId::new(), MemoryId::new());
    let source = MemorySource::new(a, "test");
    let kept = MemorySource::new(b, "test");
    db.store_memory_with_source(&make_node(a, "alpha", singles(&[1.0, 0.0])), &source).unwrap();
    db.store_memory_with_source(&make_node(b, "beta", singles(&[0.0, 1.0])), &kept).unwrap();
    db.add_edge(&edge(a, b, EdgeType::Related, 0.5)).unwrap();
    let entity = EntityRecord::new("project", "Synapse");
    let link = MemoryEntityLink {
        memory_id: a,
        entity_id: entity.entity_id.clone(),
        role: None,
        confidence: single(1.0),
        evidence: None,
    };
    db.upsert_entity_bundle(&vec![entity], &Vec::new(), &vec![link]).unwrap();
    let mut run = ExtractionRun::new("x", "1");
    run.source_memory_id = Some(a);
    db.upsert_extraction_run(&run).unwrap();
    assert_eq!(db.memory_entity_links(a).unwrap()[0].role, None);

    assert!(db.delete_memory(a).unwrap());
    assert!(!db.delete_memory(a).unwrap());
    assert!(db.memory_sources(a).unwrap().is_empty());
    assert_eq!(db.memory_sources(b).unwrap().len(), 1);
    assert!(db.memory_entity_links(a).unwrap().is_empty());
    assert!(db.edges_for(b, Direction::Both).unwrap().is_empty());
    assert_eq!(db.recent_extraction_runs(1).unwrap()[0].source_memory_id, None);
    assert!(db.get_memory(b).unwrap().is_some());
}

#[test]
fn events_touch_their_conversation() {
    let db = Backend::open_in_memory(2).unwrap();
    let updated = |db: &Backend| -> (i64, i64) {
        db.conn
            .borrow()
            .query_row("SELECT created_at, updated_at FROM conversations", [], |r| {
                Ok((r.get(0)?, r.get(1)?))
            })
            .unwrap()
    };
    let mut event = ConversationEvent::new("conv", "x");
    event.created_at = 5;
    event.observed_at = 3;
    db.add_conversation_event(&event).unwrap();
    assert_eq!(updated(&db), (5, 5));
    event.observed_at = 8;
    db.add_conversation_event(&event).unwrap();
    assert_eq!(updated(&db), (5, 8));
    assert_eq!(db.conversation_events("conv", 10).unwrap().len(), 1);
}

#[test]
fn source_of_another_memory_is_refused() {
    let db = Backend::open_in_memory(2).unwrap();
    let node = make_node(MemoryId::new(), "alpha", singles(&[1.0, 0.0]));
    let source = MemorySource::new(MemoryId::new(), "test");
    let complaint = match db.store_memory_with_source(&node, &source) {
        Err(MenteError::Storage(m)) => m,
        other => panic!("{other:?}"),
    };
    let expected = format!(
        "memory source {} points at {}, expected {}",
        source.source_id,
        id_text(&source.memory_id),
        id_text(&node.id)
    );
    assert_eq!(complaint, expected);
    assert_eq!(db.count().unwrap(), 0);
}

#[test]
fn times_in_the_upper_half_are_found() {
    let db = Backend::open_in_memory(2).unwrap();
    let (a, b) = (MemoryId::new(), MemoryId::new());
    let mut na = make_node(a, "near", singles(&[1.0, 0.0]));
    na.created_at = 500;
    let mut nb = make_node(b, "far", singles(&[0.9, 0.1]));
    nb.created_at = u64::MAX - 1;
    db.store_memory(&na).unwrap();
    db.store_memory(&nb).unwrap();
    assert_eq!(db.get_memory(b).unwrap().unwrap().created_at, u64::MAX - 1);
    let within = |start: u64, end: u64| -> usize {
        db.hybrid_search(&[1.0, 0.0], None, Some((start, end)), 10).unwrap().len()
    };
    assert_eq!(within(400, u64::MAX), 2);
    assert_eq!(within(u64::MAX - 5, u64::MAX), 1);
    assert_eq!(within(501, u64::MAX - 2), 0);
    assert_eq!(within(600, 400), 0);
}

#[test]
fn a_repeated_tag_asks_for_no_more() {
    let db = Backend::open_in_memory(2).unwrap();
    let a = MemoryId::new();
    let mut na = make_node(a, "one", singles(&[1.0, 0.0]));
    na.tags = vec!["x".into()];
    db.store_memory(&na).unwrap();
    let twice = Some(vec!["x".to_string(), "x".to_string()]);
    let res = db
        .hybrid_search_with_query_mode(&[1.0, 0.0], None, twice, false, None, 10)
        .unwrap();
    assert_eq!(res.len(), 1);
    let none = Some(Vec::new());
    assert!(db.hybrid_search(&[1.0, 0.0], none, None, 10).unwrap().is_empty());
    assert!(db.hybrid_search(&[], None, None, 10).unwrap().is_empty());
    assert!(db.hybrid_search(&[1.0, 0.0], None, None, 0).unwrap().is_empty());
}

fn answer(db: &Backend, plan: &QueryPlan) -> Vec<MemoryId> {
    let hits = match execute_plan(plan) {
        PlanAction::Scan(request) => db.scan(request).unwrap(),
        other => panic!("{other:?}"),
    };
    hits.iter().map(|h| h.id).collect()
}

#[test]
fn a_scan_needs_no_query() {
    let db = Backend::open_in_memory(2).unwrap();
    let (a, b, c) = (MemoryId::new(), MemoryId::new(), MemoryId::new());
    for (id, tag, at, salience) in [(a, "x", 10, 0.1), (b, "x", 20, 0.9), (c, "y", 30, 0.5)] {
        let mut node = make_node(id, "text", singles(&[1.0, 0.0]));
        node.tags = vec![tag.into()];
        node.created_at = at;
        node.salience = single(salience);
        db.store_memory(&node).unwrap();
    }
    let tagged = |tag: &str, limit| QueryPlan::TagScan { tags: vec![tag.to_string()], limit };
    assert_eq!(answer(&db, &tagged("y", Some(10))), vec![c]);
    assert_eq!(answer(&db, &tagged("x", None)), vec![b, a]);
    assert_eq!(answer(&db, &tagged("x", Some(1))), vec![b]);
    assert!(answer(&db, &tagged("x", Some(0))).is_empty());
    assert!(answer(&db, &tagged("z", None)).is_empty());
    let between = |start, end| QueryPlan::TemporalScan { start, end };
    assert_eq!(answer(&db, &between(15, 30)), vec![b, c]);
    assert!(answer(&db, &between(31, 40)).is_empty());
}

#[test]
fn tracing_leaves_the_store_as_it_is() {
    let db = Backend::open_in_memory(2).unwrap();
    for i in 0..3 {
        let mut node = make_node(MemoryId::new(), "same words", singles(&[1.0, i as f32]));
        node.tags = vec!["x".into()];
        db.store_memory(&node).unwrap();
    }
    let search = || {
        db.hybrid_search_with_query(&[1.0, 0.0], Some("words".to_string()), None, None, 10).unwrap()
    };
    let dump = || {
        let tables = ["memories", "memory_tags", "memory_vec", "edges", "memory_operations"];
        let conn = db.conn.borrow();
        tables.map(|t| {
            let sql = format!("SELECT * FROM {t}");
            let mut stmt = conn.prepare(&sql).unwrap();
            let width = stmt.column_count();
            let read = stmt
                .query_map([], |r| {
                    (0..width).map(|i| r.get::<_, Value>(i)).collect::<Result<Vec<_>, _>>()
                })
                .unwrap();
            read.map(|r| r.unwrap()).collect::<Vec<_>>()
        })
    };
    let (plain, before) = (search(), dump());
    db.trace_retrieval.set(true);
    assert_eq!(search(), plain);
    assert_eq!(dump(), before);
    assert_eq!(db.recent_retrieval_traces(10).unwrap().len(), 1);
    let mut ids: Vec<MemoryId> = plain.iter().map(|h| h.id).collect();
    assert_eq!(ids.len(), 3);
    ids.dedup();
    assert_eq!(ids.len(), 3);
}

#[test]
fn a_deep_subgraph_ends() {
    let db = Backend::open_in_memory(2).unwrap();
    let ids: Vec<MemoryId> = (0..4).map(|_| MemoryId::new()).collect();
    for i in 0..3 {
        db.add_edge(&edge(ids[i], ids[i + 1], EdgeType::Before, 1.0)).unwrap();
    }
    assert_eq!(db.subgraph(&vec![ids[0]], usize::MAX, &None).unwrap().len(), 4);
    assert_eq!(db.subgraph(&vec![ids[0]], 2, &None).unwrap().len(), 3);
    assert_eq!(db.subgraph(&vec![ids[0], ids[0]], 0, &None).unwrap(), vec![ids[0]]);
    assert!(db.subgraph(&Vec::new(), 3, &None).unwrap().is_empty());
}

#[test]
fn traces_are_kept_up_to_the_limit() {
    let mut db = Backend::open_in_memory(2).unwrap();
    db.retrieval_config.trace_retention_limit = 2;
    db.set_retrieval_tracing(true);
    for _ in 0..4 {
        let tags = Some(vec!["none".to_string()]);
        let res = db
            .hybrid_search_with_query_mode(&[1.0, 0.0], None, tags, true, Some((1, 2)), 3)
            .unwrap();
        assert!(res.is_empty());
    }
    let traces = db.recent_retrieval_traces(10).unwrap();
    assert_eq!(traces.len(), 2);
    assert_eq!(traces[0].tags, vec!["none".to_string()]);
    assert!(traces[0].tags_or);
    assert_eq!(traces[0].time_range, Some((1, 2)));
    assert_eq!((traces[0].k, traces[0].result_count), (3, 0));
    assert!(db.retrieval_trace_hits(&traces[0].trace_id).unwrap().is_empty());
}

#[test]
fn operations_name_what_they_changed() {
    let db = Backend::open_in_memory(2).unwrap();
    let (a, b) = (MemoryId::new(), MemoryId::new());
    db.store_memory(&make_node(a, "alpha", singles(&[1.0, 0.0]))).unwrap();
    let stored = &db.recent_operations(1).unwrap()[0];
    assert_eq!(stored.memory_id, Some(a));
    assert_eq!(stored.operation_id.len(), 36);
    let payload: serde_json::Value = serde_json::from_str(&stored.payload_json).unwrap();
    assert_eq!(payload["content_len"], 5);
    assert_eq!(payload["embedding_dim"], 2);
    assert_eq!(payload["tag_count"], 2);
    assert_eq!(payload["memory_type"], "Semantic");
    assert!(payload["valid_until"].is_null());

    db.add_edge(&edge(a, b, EdgeType::Related, 0.5)).unwrap();
    db.delete_edges_for(a).unwrap();
    let operations = db.recent_operations(10).unwrap();
    let named = |name: &str| -> &MemoryOperation {
        operations.iter().find(|op| op.operation_type == name).unwrap()
    };
    assert_eq!(named("edge_insert").source, Some(a));
    assert_eq!(named("edge_insert").target, Some(b));
    let payload: serde_json::Value =
        serde_json::from_str(&named("edge_delete_for_memory").payload_json).unwrap();
    assert_eq!(payload["deleted_edges"], 1);
}

#[test]
fn a_rebuilt_index_follows_the_memories() {
    let db = Backend::open_in_memory(0).unwrap();
    let (a, b, c) = (MemoryId::new(), MemoryId::new(), MemoryId::new());
    db.store_memory(&make_node(a, "two", singles(&[1.0, 0.0]))).unwrap();
    db.store_memory(&make_node(b, "three", singles(&[1.0, 0.0, 0.0]))).unwrap();
    db.store_memory(&make_node(c, "none", Vec::new())).unwrap();
    db.ensure_vector_index(2).unwrap();
    let near = db.knn(&[1.0, 0.0], 5).unwrap();
    assert_eq!(near.iter().map(|h| h.0).collect::<Vec<_>>(), vec![a]);
    assert_eq!(db.count().unwrap(), 3);
    let record = &db.recent_operations(1).unwrap()[0];
    assert_eq!(record.operation_type, "vector_index_rebuild");
    let payload: serde_json::Value = serde_json::from_str(&record.payload_json).unwrap();
    assert_eq!(payload["backfilled"], 1);
    assert_eq!(payload["skipped_dimension_mismatch"], 1);
    db.ensure_vector_index(3).unwrap();
    let near = db.knn(&[1.0, 0.0, 0.0], 5).unwrap();
    assert_eq!(near.iter().map(|h| h.0).collect::<Vec<_>>(), vec![b]);
    assert!(db.store_memory(&make_node(a, "two", singles(&[1.0, 0.0]))).is_err());
    db.ensure_vector_index(0).unwrap();
    assert_eq!(db.embedding_dim(), 3);
}

#[test]
fn blobs_are_little_endian() {
    let values = [0.5f32, -1.25, 3.0];
    let blob = embedding_to_blob(&singles(&values));
    assert_eq!(blob[..4], [0x00, 0x00, 0x00, 0x3f]);
    if cfg_little() {
        assert_eq!(blob, bytemuck::cast_slice::<f32, u8>(&values).to_vec());
    }
    assert_eq!(blob_to_embedding(&blob), singles(&values));
}

fn cfg_little() -> bool {
    1u16.to_ne_bytes()[0] == 1
}
