//! What holds of the tables after whole writes: the references between them, and
//! what a deletion takes and leaves.
use crate::codec::attributes_of;
use crate::memory::{EdgeView, MemoryId, MemoryView};
use crate::policies::{law_ordered, ordered};
use crate::records::{
    ClaimEntityView, ClaimEvidenceView, ClaimView, ExtractionView, LinkColumns,
    RelationshipEvidenceView, RelationshipView, SourceView,
};
use crate::tables::{
    after_delete, after_store, applied, at_edge, is_source_of, law_store_then_read, lemma_delete,
    lemma_store, stored_row, without_memory, Tables,
};
use crate::text::{law_text_order_total, text_before};
use crate::writes::Step;
use vstd::prelude::*;

verus! {

// ---------------------------------------------------------------------------
// References
// ---------------------------------------------------------------------------
/// Whether an optional reference is to a row of a table.
pub open spec fn opt_in<K, V>(key: Option<K>, table: Map<K, V>) -> bool {
    key is Some ==> table.contains_key(key->0)
}

pub open spec fn source_fits(db: Tables, r: SourceView) -> bool {
    db.memories.contains_key(r.memory_id)
}

pub open spec fn link_fits(db: Tables, r: LinkColumns) -> bool {
    db.memories.contains_key(r.memory_id) && db.entities.contains_key(r.entity_id)
}

pub open spec fn run_fits(db: Tables, r: ExtractionView) -> bool {
    opt_in(r.source_memory_id, db.memories) && opt_in(r.conversation_id, db.conversations)
}

pub open spec fn claim_fits(db: Tables, r: ClaimView) -> bool {
    &&& opt_in(r.subject_entity_id, db.entities)
    &&& opt_in(r.object_entity_id, db.entities)
    &&& opt_in(r.source_run_id, db.runs)
}

pub open spec fn claim_entity_fits(db: Tables, r: ClaimEntityView) -> bool {
    db.claims.contains_key(r.claim_id) && db.entities.contains_key(r.entity_id)
}

pub open spec fn claim_evidence_fits(db: Tables, r: ClaimEvidenceView) -> bool {
    &&& db.claims.contains_key(r.claim_id)
    &&& db.memories.contains_key(r.memory_id)
    &&& opt_in(r.source_id, db.sources)
}

pub open spec fn relationship_fits(db: Tables, r: RelationshipView) -> bool {
    &&& db.entities.contains_key(r.source_entity_id)
    &&& db.entities.contains_key(r.target_entity_id)
    &&& opt_in(r.source_run_id, db.runs)
}

pub open spec fn relationship_evidence_fits(db: Tables, r: RelationshipEvidenceView) -> bool {
    &&& db.relationships.contains_key(r.relationship_id)
    &&& db.memories.contains_key(r.memory_id)
    &&& opt_in(r.source_id, db.sources)
}

/// Whether every reference from one table into another is to a row that is
/// there.
pub open spec fn references_hold(db: Tables) -> bool {
    &&& forall|k: Seq<char>| #[trigger]
        db.sources.contains_key(k) ==> source_fits(db, db.sources[k])
    &&& forall|k: (Seq<char>, Seq<char>)| #[trigger]
        db.aliases.contains_key(k) ==> db.entities.contains_key(db.aliases[k].entity_id)
    &&& forall|k: (MemoryId, Seq<char>, Seq<char>)| #[trigger]
        db.memory_entities.contains_key(k) ==> link_fits(db, db.memory_entities[k])
    &&& forall|k: Seq<char>| #[trigger]
        db.events.contains_key(k) ==> db.conversations.contains_key(db.events[k].conversation_id)
    &&& forall|k: Seq<char>| #[trigger] db.runs.contains_key(k) ==> run_fits(db, db.runs[k])
    &&& forall|k: Seq<char>| #[trigger] db.claims.contains_key(k) ==> claim_fits(db, db.claims[k])
    &&& forall|k: (Seq<char>, Seq<char>, Seq<char>)| #[trigger]
        db.claim_entities.contains_key(k) ==> claim_entity_fits(db, db.claim_entities[k])
    &&& forall|k: Seq<char>| #[trigger]
        db.claim_evidence.contains_key(k) ==> claim_evidence_fits(db, db.claim_evidence[k])
    &&& forall|k: Seq<char>| #[trigger]
        db.relationships.contains_key(k) ==> relationship_fits(db, db.relationships[k])
    &&& forall|k: Seq<char>| #[trigger]
        db.relationship_evidence.contains_key(k) ==> relationship_evidence_fits(
            db,
            db.relationship_evidence[k],
        )
    &&& forall|k: (Seq<char>, i64)| #[trigger]
        db.trace_hits.contains_key(k) ==> db.traces.contains_key(db.trace_hits[k].trace_id)
}

/// Whether the references of what a step writes are to rows that are there. The
/// tables refuse any other step.
pub open spec fn step_fits(db: Tables, step: Step) -> bool {
    match step {
        Step::Source(r) => source_fits(db, r),
        Step::Alias(r) => db.entities.contains_key(r.entity_id),
        Step::MemoryEntity(r) => link_fits(db, r),
        Step::Event(r) => db.conversations.contains_key(r.conversation_id),
        Step::Run(r) => run_fits(db, r),
        Step::Claim(r) => claim_fits(db, r),
        Step::ClaimEntity(r) => claim_entity_fits(db, r),
        Step::ClaimEvidence(r) => claim_evidence_fits(db, r),
        Step::Relationship(r) => relationship_fits(db, r),
        Step::RelationshipEvidence(r) => relationship_evidence_fits(db, r),
        Step::TraceHit(r) => db.traces.contains_key(r.trace_id),
        _ => true,
    }
}

proof fn lemma_without_memory(db: Tables, id: MemoryId)
    requires
        references_hold(db),
    ensures
        references_hold(without_memory(db, id)),
{
    let after = without_memory(db, id);
    assert forall|k: Seq<char>| #[trigger] after.claim_evidence.contains_key(k) implies
        claim_evidence_fits(after, after.claim_evidence[k]) by {
        let e = db.claim_evidence[k];
        assert(db.claim_evidence.contains_key(k));
        if e.source_id is Some && !is_source_of(db, e.source_id, id) {
            assert(after.sources.contains_key(e.source_id->0));
        }
    }
    assert forall|k: Seq<char>| #[trigger] after.relationship_evidence.contains_key(k) implies
        relationship_evidence_fits(after, after.relationship_evidence[k]) by {
        let e = db.relationship_evidence[k];
        assert(db.relationship_evidence.contains_key(k));
        if e.source_id is Some && !is_source_of(db, e.source_id, id) {
            assert(after.sources.contains_key(e.source_id->0));
        }
    }
    assert forall|k: Seq<char>| #[trigger] after.sources.contains_key(k) implies source_fits(
        after,
        after.sources[k],
    ) by {
        assert(db.sources.contains_key(k));
    }
    assert forall|k: (MemoryId, Seq<char>, Seq<char>)| #[trigger]
        after.memory_entities.contains_key(k) implies link_fits(after, after.memory_entities[k]) by {
        assert(db.memory_entities.contains_key(k));
    }
    assert forall|k: Seq<char>| #[trigger] after.runs.contains_key(k) implies run_fits(
        after,
        after.runs[k],
    ) by {
        assert(db.runs.contains_key(k));
    }
    assert forall|k: Seq<char>| #[trigger] after.claims.contains_key(k) implies claim_fits(
        after,
        after.claims[k],
    ) by {
        assert(db.claims.contains_key(k));
        if let Some(r) = after.claims[k].source_run_id {
            assert(db.runs.contains_key(r));
        }
    }
    assert forall|k: Seq<char>| #[trigger] after.relationships.contains_key(k) implies
        relationship_fits(after, after.relationships[k]) by {
        assert(db.relationships.contains_key(k));
        if let Some(r) = after.relationships[k].source_run_id {
            assert(db.runs.contains_key(r));
        }
    }
}

/// Every step keeps the references, as long as those of what it writes are to
/// rows that are there.
pub proof fn law_references_kept(db: Tables, step: Step)
    requires
        references_hold(db),
        step_fits(db, step),
    ensures
        references_hold(applied(db, step)),
{
    match step {
        Step::MemoryClear(id) => {
            lemma_without_memory(db, id);
        },
        Step::MemoryEntitiesClear(id) => {
            let after = applied(db, step);
            assert forall|k: (MemoryId, Seq<char>, Seq<char>)| #[trigger]
                after.memory_entities.contains_key(k) implies link_fits(
                after,
                after.memory_entities[k],
            ) by {
                assert(db.memory_entities.contains_key(k));
            }
        },
        _ => {},
    }
}

// ---------------------------------------------------------------------------
// Deletion
// ---------------------------------------------------------------------------
/// After a deletion nothing refers to the memory: no provenance, no entity link,
/// no evidence and no run.
pub proof fn law_delete_cascades(db: Tables, id: MemoryId)
    requires
        references_hold(db),
    ensures
        ({
            let after = after_delete(db, id);
            &&& references_hold(after)
            &&& forall|k: Seq<char>| #[trigger]
                after.sources.contains_key(k) ==> after.sources[k].memory_id != id
            &&& forall|k: (MemoryId, Seq<char>, Seq<char>)| #[trigger]
                after.memory_entities.contains_key(k) ==> after.memory_entities[k].memory_id != id
            &&& forall|k: Seq<char>| #[trigger]
                after.claim_evidence.contains_key(k) ==> after.claim_evidence[k].memory_id != id
            &&& forall|k: Seq<char>| #[trigger]
                after.relationship_evidence.contains_key(k)
                    ==> after.relationship_evidence[k].memory_id != id
            &&& forall|k: Seq<char>| #[trigger]
                after.runs.contains_key(k) ==> after.runs[k].source_memory_id != Some(id)
        }),
{
    lemma_delete(db, id);
    lemma_without_memory(db, id);
}

/// A deletion keeps every claim, every relationship and every entity, and what
/// hangs on other memories.
pub proof fn law_delete_keeps_knowledge(db: Tables, id: MemoryId, k: Seq<char>)
    ensures
        ({
            let after = after_delete(db, id);
            &&& after.claims == db.claims
            &&& after.relationships == db.relationships
            &&& after.entities == db.entities
            &&& after.aliases == db.aliases
            &&& after.conversations == db.conversations
            &&& after.events == db.events
            &&& db.sources.contains_key(k) && db.sources[k].memory_id != id ==> after.sources[k]
                == db.sources[k]
            &&& after.runs.contains_key(k) <==> db.runs.contains_key(k)
        }),
{
    lemma_delete(db, id);
}

proof fn lemma_filter_all<A>(s: Seq<A>, keep: spec_fn(A) -> bool)
    requires
        forall|i: int| 0 <= i < s.len() ==> keep(#[trigger] s[i]),
    ensures
        s.filter(keep) == s,
    decreases s.len(),
{
    reveal(Seq::filter);
    if s.len() > 0 {
        let head = s.drop_last();
        assert forall|i: int| 0 <= i < head.len() implies keep(#[trigger] head[i]) by {
            assert(head[i] == s[i]);
        }
        lemma_filter_all(head, keep);
        assert(keep(s[s.len() - 1]));
        assert(head.push(s.last()) =~= s);
    }
}

/// Without a row of a memory, its clearing changes nothing.
proof fn lemma_nothing_to_clear(db: Tables, id: MemoryId)
    requires
        references_hold(db),
        !db.memories.contains_key(id),
    ensures
        without_memory(db, id) == db,
{
    let after = without_memory(db, id);
    assert(after.memories =~= db.memories);
    assert forall|k: Seq<char>| db.sources.contains_key(k) implies db.sources[k].memory_id
        != id by {
        assert(source_fits(db, db.sources[k]));
    }
    assert(after.sources =~= db.sources);
    assert forall|k: (MemoryId, Seq<char>, Seq<char>)|
        db.memory_entities.contains_key(k) implies db.memory_entities[k].memory_id != id by {
        assert(link_fits(db, db.memory_entities[k]));
    }
    assert(after.memory_entities =~= db.memory_entities);
    assert forall|k: Seq<char>| db.runs.contains_key(k) implies db.runs[k].source_memory_id
        != Some(id) by {
        assert(run_fits(db, db.runs[k]));
    }
    assert(after.runs =~= db.runs);
    assert forall|k: Seq<char>| db.claim_evidence.contains_key(k) implies
        db.claim_evidence[k].memory_id != id && !is_source_of(
        db,
        db.claim_evidence[k].source_id,
        id,
    ) by {
        assert(claim_evidence_fits(db, db.claim_evidence[k]));
    }
    assert(after.claim_evidence =~= db.claim_evidence);
    assert forall|k: Seq<char>| db.relationship_evidence.contains_key(k) implies
        db.relationship_evidence[k].memory_id != id && !is_source_of(
        db,
        db.relationship_evidence[k].source_id,
        id,
    ) by {
        assert(relationship_evidence_fits(db, db.relationship_evidence[k]));
    }
    assert(after.relationship_evidence =~= db.relationship_evidence);
    assert(after =~= db);
}

/// A deletion undoes the storing of a new memory: but for the audit trail, the
/// tables are as they were.
pub proof fn law_delete_undoes_store(db: Tables, m: MemoryView, dim: usize)
    requires
        references_hold(db),
        !db.memories.contains_key(m.id),
        !db.vectors.contains_key(m.id),
        forall|t: Seq<char>| !#[trigger] db.tags.contains((m.id, t)),
        forall|i: int| 0 <= i < db.edges.len() ==> !at_edge(#[trigger] db.edges[i], m.id),
    ensures
        ({
            let after = after_delete(after_store(db, m, dim), m.id);
            after == (Tables { operations: after.operations, ..db })
        }),
{
    lemma_store(db, m, dim);
    let mid = after_store(db, m, dim);
    lemma_delete(mid, m.id);
    lemma_nothing_to_clear(db, m.id);
    let after = after_delete(mid, m.id);
    let cleared = without_memory(mid, m.id);
    let keep = |e: EdgeView| !at_edge(e, m.id);
    lemma_filter_all(db.edges, keep);
    assert(cleared.memories =~= db.memories);
    assert(cleared.sources =~= without_memory(db, m.id).sources);
    assert(cleared.memory_entities =~= without_memory(db, m.id).memory_entities);
    assert(cleared.runs =~= without_memory(db, m.id).runs);
    assert(cleared.claim_evidence =~= without_memory(db, m.id).claim_evidence);
    assert(cleared.relationship_evidence =~= without_memory(db, m.id).relationship_evidence);
    assert(after.vectors =~= db.vectors);
    assert forall|p: (MemoryId, Seq<char>)| after.tags.contains(p) <==> db.tags.contains(p) by {
        if p.0 == m.id {
            assert(p == (m.id, p.1));
        }
    }
    assert(after.tags =~= db.tags);
    assert(after =~= (Tables { operations: after.operations, ..db }));
}

// ---------------------------------------------------------------------------
// Reading
// ---------------------------------------------------------------------------
/// Whether texts are in strict order.
pub open spec fn strictly_ordered(s: Seq<Seq<char>>) -> bool {
    forall|i: int, j: int|
        0 <= i < j < s.len() ==> text_before(#[trigger] s[i], #[trigger] s[j])
}

/// Whether a memory is what is read under an identity: the fields of its row, the
/// attributes as they are read, and its tags in order.
pub open spec fn reads_as(db: Tables, id: MemoryId, m: MemoryView) -> bool {
    &&& db.memories.contains_key(id)
    &&& m == (MemoryView {
        tags: m.tags,
        attributes: attributes_of(db.memories[id].attributes),
        ..db.memories[id]
    })
    &&& strictly_ordered(m.tags)
    &&& forall|t: Seq<char>| #[trigger] m.tags.contains(t) <==> db.tags.contains((id, t))
}

/// Two lists of texts in strict order with the same texts are equal.
proof fn lemma_one_order(a: Seq<Seq<char>>, b: Seq<Seq<char>>)
    requires
        strictly_ordered(a),
        strictly_ordered(b),
        forall|t: Seq<char>| #[trigger] a.contains(t) <==> b.contains(t),
    ensures
        a == b,
    decreases a.len(),
{
    if a.len() == 0 {
        if b.len() > 0 {
            assert(b.contains(b[0]));
            assert(a.contains(b[0]));
        }
        assert(a =~= b);
    } else {
        assert(a.contains(a[0]));
        assert(b.contains(a[0]));
        let i = choose|i: int| 0 <= i < b.len() && b[i] == a[0];
        assert(b.contains(b[0]));
        assert(a.contains(b[0]));
        let j = choose|j: int| 0 <= j < a.len() && a[j] == b[0];
        law_text_order_total(a[0], b[0]);
        if i > 0 && j > 0 {
            assert(text_before(b[0], b[i]));
            assert(text_before(a[0], a[j]));
        }
        assert(a[0] == b[0]);
        let x = a.drop_first();
        let y = b.drop_first();
        assert forall|p: int, q: int| 0 <= p < q < x.len() implies text_before(
            #[trigger] x[p],
            #[trigger] x[q],
        ) by {
            assert(text_before(a[p + 1], a[q + 1]));
        }
        assert forall|p: int, q: int| 0 <= p < q < y.len() implies text_before(
            #[trigger] y[p],
            #[trigger] y[q],
        ) by {
            assert(text_before(b[p + 1], b[q + 1]));
        }
        assert forall|t: Seq<char>| #[trigger] x.contains(t) <==> y.contains(t) by {
            lemma_rest(a, t);
            lemma_rest(b, t);
        }
        lemma_one_order(x, y);
        assert(a =~= seq![a[0]] + x);
        assert(b =~= seq![b[0]] + y);
    }
}

/// The texts after the first one are those that are not the first one.
proof fn lemma_rest(s: Seq<Seq<char>>, t: Seq<char>)
    requires
        s.len() > 0,
        strictly_ordered(s),
    ensures
        s.drop_first().contains(t) <==> s.contains(t) && t != s[0],
{
    let rest = s.drop_first();
    if rest.contains(t) {
        let i = choose|i: int| 0 <= i < rest.len() && rest[i] == t;
        assert(s[i + 1] == t);
        assert(text_before(s[0], s[i + 1]));
        law_text_order_total(s[0], t);
    }
    if s.contains(t) && t != s[0] {
        let i = choose|i: int| 0 <= i < s.len() && s[i] == t;
        assert(rest[i - 1] == t);
    }
}

/// A memory that was stored is read back with all its fields, its tags in order
/// and each once; one that was there before keeps the time of its creation.
/// (Attributes that are a JSON object are read as they were stored.)
pub proof fn law_store_and_get(db: Tables, m: MemoryView, dim: usize, read: MemoryView)
    ensures
        reads_as(after_store(db, m, dim), m.id, read) <==> read == (MemoryView {
            tags: ordered(m.tags),
            created_at: stored_row(db, m).created_at,
            attributes: attributes_of(m.attributes),
            ..m
        }),
{
    let after = after_store(db, m, dim);
    law_store_then_read(db, m, dim);
    law_ordered(m.tags);
    let want = MemoryView {
        tags: ordered(m.tags),
        created_at: stored_row(db, m).created_at,
        attributes: attributes_of(m.attributes),
        ..m
    };
    assert(strictly_ordered(ordered(m.tags)));
    assert forall|t: Seq<char>| #[trigger] want.tags.contains(t) <==> after.tags.contains(
        (m.id, t),
    ) by {
        assert(after.tags.contains((m.id, t)) <==> m.tags.contains(t));
    }
    if reads_as(after, m.id, read) {
        assert forall|t: Seq<char>| #[trigger] read.tags.contains(t) <==> want.tags.contains(
            t,
        ) by {
            assert(after.tags.contains((m.id, t)) <==> m.tags.contains(t));
        }
        lemma_one_order(read.tags, want.tags);
        assert(read =~= want);
    }
}

} // verus!
