//! What is in the tables after records were written: entities with their aliases
//! and links, conversations, and what runs derive.
use crate::codec::signed_bits;
use crate::extraction_jobs::ValidatedExtractionBatch;
use crate::memory::MemoryId;
use crate::order::views_of;
use crate::records::{
    AliasColumns, ClaimEntityLink, ClaimEntityView, ClaimEvidence, ClaimEvidenceView, ClaimRecord,
    ClaimView, ConversationEvent, EntityAlias, EntityColumns, EntityRecord, EntityRelationship,
    EventView, LinkColumns, MemoryEntityLink, RelationshipEvidence, RelationshipEvidenceView,
    RelationshipView,
};
use crate::table_laws::step_fits;
use crate::tables::{
    applied, applied_all, lemma_applied_concat, lemma_applied_one, lemma_applied_two, link_key,
    Tables,
};
use crate::writes::{
    alias_all, alias_steps, artifact_steps, bundle_steps, claim_all, claim_bundle_steps,
    claim_entity_all, claim_entity_steps, claim_evidence_all, claim_evidence_steps, claim_steps,
    entity_all, entity_steps, event_steps, memory_entity_all, memory_entity_steps, relationship_all,
    relationship_evidence_all, relationship_evidence_steps, relationship_steps, replace_steps,
    role_column_of, role_of, run_steps, Step,
};
use vstd::prelude::*;

verus! {

/// A table after values were written into it one after another, each under its
/// key and as the table turns it into a row.
pub open spec fn upserted<K, V>(
    table: Map<K, V>,
    items: Seq<V>,
    key: spec_fn(V) -> K,
    row: spec_fn(Map<K, V>, V) -> V,
) -> Map<K, V>
    decreases items.len(),
{
    if items.len() == 0 {
        table
    } else {
        let before = upserted(table, items.drop_last(), key, row);
        before.insert(key(items.last()), row(before, items.last()))
    }
}

/// Whether one of the values has a key.
pub open spec fn has_key<K, V>(items: Seq<V>, key: spec_fn(V) -> K, k: K) -> bool {
    exists|i: int| 0 <= i < items.len() && key(#[trigger] items[i]) == k
}

/// Whether no later value has the key of a value.
pub open spec fn is_last<K, V>(items: Seq<V>, key: spec_fn(V) -> K, i: int) -> bool {
    forall|j: int| i < j < items.len() ==> key(#[trigger] items[j]) != key(items[i])
}

/// Whether values were written: each is there under its key, the last with a key
/// has its row, nothing else came, and rows with other keys are as they were.
pub open spec fn written<K, V>(
    before: Map<K, V>,
    after: Map<K, V>,
    items: Seq<V>,
    key: spec_fn(V) -> K,
    holds: spec_fn(V, V) -> bool,
) -> bool {
    &&& forall|i: int| 0 <= i < items.len() ==> after.contains_key(key(#[trigger] items[i]))
    &&& forall|i: int|
        0 <= i < items.len() && is_last(items, key, i) ==> holds(
            after[key(items[i])],
            #[trigger] items[i],
        )
    &&& forall|k: K| #[trigger]
        after.contains_key(k) ==> before.contains_key(k) || has_key(items, key, k)
    &&& forall|k: K|
        !(#[trigger] has_key(items, key, k)) && before.contains_key(k) ==> after.contains_key(k)
            && after[k] == before[k]
}

proof fn lemma_upserted<K, V>(
    table: Map<K, V>,
    items: Seq<V>,
    key: spec_fn(V) -> K,
    row: spec_fn(Map<K, V>, V) -> V,
    holds: spec_fn(V, V) -> bool,
)
    requires
        forall|t: Map<K, V>, v: V| holds(#[trigger] row(t, v), v),
    ensures
        written(table, upserted(table, items, key, row), items, key, holds),
    decreases items.len(),
{
    let after = upserted(table, items, key, row);
    if items.len() > 0 {
        let head = items.drop_last();
        let n = items.len() - 1;
        lemma_upserted(table, head, key, row, holds);
        let mid = upserted(table, head, key, row);
        assert forall|i: int| 0 <= i < items.len() implies after.contains_key(
            key(#[trigger] items[i]),
        ) by {
            if i < n {
                assert(head[i] == items[i]);
            }
        }
        assert forall|i: int| 0 <= i < items.len() && is_last(items, key, i) implies holds(
            after[key(items[i])],
            #[trigger] items[i],
        ) by {
            assert(holds(row(mid, items[n]), items[n]));
            if i < n {
                assert(head[i] == items[i]);
                assert(key(items[n]) != key(items[i]));
                assert forall|j: int| i < j < head.len() implies key(#[trigger] head[j]) != key(
                    head[i],
                ) by {
                    assert(head[j] == items[j]);
                }
                assert(is_last(head, key, i));
            }
        }
        assert forall|k: K| has_key(head, key, k) implies has_key(items, key, k) by {
            let i = choose|i: int| 0 <= i < head.len() && key(#[trigger] head[i]) == k;
            assert(key(items[i]) == k);
        }
        assert(has_key(items, key, key(items[n])));
    }
}

/// Whether entities were written; a row holds what was written, but for the time of its creation.
pub open spec fn entity_written(before: Tables, after: Tables, items: Seq<EntityColumns>) -> bool {
    written(
        before.entities,
        after.entities,
        items,
        |r: EntityColumns| r.entity_id,
        |row: EntityColumns, r: EntityColumns| (EntityColumns { created_at: r.created_at, ..row }) == r,
    )
}

proof fn lemma_entity_all(db: Tables, items: Seq<EntityRecord>)
    ensures
        ({
            let after = applied_all(db, entity_all(items));
            &&& after == (Tables { entities: after.entities, operations: after.operations, ..db })
            &&& entity_written(db, after, views_of(items))
        }),
{
    let key = |r: EntityColumns| r.entity_id;
    let row = |t: Map<Seq<char>, EntityColumns>, r: EntityColumns|
        if t.contains_key(r.entity_id) {
            EntityColumns { created_at: t[r.entity_id].created_at, ..r }
        } else {
            r
        };
    let holds = |row: EntityColumns, r: EntityColumns| (EntityColumns { created_at: r.created_at, ..row }) == r;
    lemma_entity_steps(db, items, key, row);
    lemma_upserted(db.entities, views_of(items), key, row, holds);
}

proof fn lemma_entity_steps(
    db: Tables,
    items: Seq<EntityRecord>,
    key: spec_fn(EntityColumns) -> Seq<char>,
    row: spec_fn(Map<Seq<char>, EntityColumns>, EntityColumns) -> EntityColumns,
)
    requires
        key == (|r: EntityColumns| r.entity_id),
        row == (|t: Map<Seq<char>, EntityColumns>, r: EntityColumns|
        if t.contains_key(r.entity_id) {
            EntityColumns { created_at: t[r.entity_id].created_at, ..r }
        } else {
            r
        }),
    ensures
        ({
            let after = applied_all(db, entity_all(items));
            after == (Tables {
                entities: upserted(db.entities, views_of(items), key, row),
                operations: after.operations,
                ..db
            })
        }),
    decreases items.len(),
{
    if items.len() > 0 {
        let head = items.drop_last();
        let steps = entity_steps(items.last());
        lemma_entity_steps(db, head, key, row);
        let mid = applied_all(db, entity_all(head));
        lemma_applied_concat(db, entity_all(head), steps);
        lemma_applied_two(mid, steps[0], steps[1]);
        assert(steps =~= seq![steps[0], steps[1]]);
        assert(views_of(items).drop_last() =~= views_of(head));
        assert(views_of(items).last() == items.last()@);
    }
}

/// Whether aliases were written; a row holds what was written.
pub open spec fn alias_written(before: Tables, after: Tables, items: Seq<AliasColumns>) -> bool {
    written(
        before.aliases,
        after.aliases,
        items,
        |r: AliasColumns| (r.entity_id, r.alias),
        |row: AliasColumns, r: AliasColumns| row == r,
    )
}

proof fn lemma_alias_all(db: Tables, items: Seq<EntityAlias>)
    ensures
        ({
            let after = applied_all(db, alias_all(items));
            &&& after == (Tables { aliases: after.aliases, operations: after.operations, ..db })
            &&& alias_written(db, after, views_of(items))
        }),
{
    let key = |r: AliasColumns| (r.entity_id, r.alias);
    let row = |t: Map<(Seq<char>, Seq<char>), AliasColumns>, r: AliasColumns| r;
    let holds = |row: AliasColumns, r: AliasColumns| row == r;
    lemma_alias_steps(db, items, key, row);
    lemma_upserted(db.aliases, views_of(items), key, row, holds);
}

proof fn lemma_alias_steps(
    db: Tables,
    items: Seq<EntityAlias>,
    key: spec_fn(AliasColumns) -> (Seq<char>, Seq<char>),
    row: spec_fn(Map<(Seq<char>, Seq<char>), AliasColumns>, AliasColumns) -> AliasColumns,
)
    requires
        key == (|r: AliasColumns| (r.entity_id, r.alias)),
        row == (|t: Map<(Seq<char>, Seq<char>), AliasColumns>, r: AliasColumns| r),
    ensures
        ({
            let after = applied_all(db, alias_all(items));
            after == (Tables {
                aliases: upserted(db.aliases, views_of(items), key, row),
                operations: after.operations,
                ..db
            })
        }),
    decreases items.len(),
{
    if items.len() > 0 {
        let head = items.drop_last();
        let steps = alias_steps(items.last());
        lemma_alias_steps(db, head, key, row);
        let mid = applied_all(db, alias_all(head));
        lemma_applied_concat(db, alias_all(head), steps);
        lemma_applied_two(mid, steps[0], steps[1]);
        assert(steps =~= seq![steps[0], steps[1]]);
        assert(views_of(items).drop_last() =~= views_of(head));
        assert(views_of(items).last() == items.last()@);
    }
}

/// Whether entity links were written; a row holds what was written, where an empty role is none.
pub open spec fn memory_entity_written(before: Tables, after: Tables, items: Seq<LinkColumns>) -> bool {
    written(
        before.memory_entities,
        after.memory_entities,
        items,
        |r: LinkColumns| link_key(r),
        |row: LinkColumns, r: LinkColumns| row == (LinkColumns { role: role_of(role_column_of(r.role)), ..r }),
    )
}

proof fn lemma_memory_entity_all(db: Tables, items: Seq<MemoryEntityLink>)
    ensures
        ({
            let after = applied_all(db, memory_entity_all(items));
            &&& after == (Tables { memory_entities: after.memory_entities, operations: after.operations, ..db })
            &&& memory_entity_written(db, after, views_of(items))
        }),
{
    let key = |r: LinkColumns| link_key(r);
    let row = |t: Map<(MemoryId, Seq<char>, Seq<char>), LinkColumns>, r: LinkColumns| LinkColumns { role: role_of(role_column_of(r.role)), ..r };
    let holds = |row: LinkColumns, r: LinkColumns| row == (LinkColumns { role: role_of(role_column_of(r.role)), ..r });
    lemma_memory_entity_steps(db, items, key, row);
    lemma_upserted(db.memory_entities, views_of(items), key, row, holds);
}

proof fn lemma_memory_entity_steps(
    db: Tables,
    items: Seq<MemoryEntityLink>,
    key: spec_fn(LinkColumns) -> (MemoryId, Seq<char>, Seq<char>),
    row: spec_fn(Map<(MemoryId, Seq<char>, Seq<char>), LinkColumns>, LinkColumns) -> LinkColumns,
)
    requires
        key == (|r: LinkColumns| link_key(r)),
        row == (|t: Map<(MemoryId, Seq<char>, Seq<char>), LinkColumns>, r: LinkColumns| LinkColumns { role: role_of(role_column_of(r.role)), ..r }),
    ensures
        ({
            let after = applied_all(db, memory_entity_all(items));
            after == (Tables {
                memory_entities: upserted(db.memory_entities, views_of(items), key, row),
                operations: after.operations,
                ..db
            })
        }),
    decreases items.len(),
{
    if items.len() > 0 {
        let head = items.drop_last();
        let steps = memory_entity_steps(items.last());
        lemma_memory_entity_steps(db, head, key, row);
        let mid = applied_all(db, memory_entity_all(head));
        lemma_applied_concat(db, memory_entity_all(head), steps);
        lemma_applied_two(mid, steps[0], steps[1]);
        assert(steps =~= seq![steps[0], steps[1]]);
        assert(views_of(items).drop_last() =~= views_of(head));
        assert(views_of(items).last() == items.last()@);
    }
}

/// Whether claims were written; a row holds what was written, but for the time of its creation.
pub open spec fn claim_written(before: Tables, after: Tables, items: Seq<ClaimView>) -> bool {
    written(
        before.claims,
        after.claims,
        items,
        |r: ClaimView| r.claim_id,
        |row: ClaimView, r: ClaimView| (ClaimView { created_at: r.created_at, ..row }) == r,
    )
}

proof fn lemma_claim_all(db: Tables, items: Seq<ClaimRecord>)
    ensures
        ({
            let after = applied_all(db, claim_all(items));
            &&& after == (Tables { claims: after.claims, operations: after.operations, ..db })
            &&& claim_written(db, after, views_of(items))
        }),
{
    let key = |r: ClaimView| r.claim_id;
    let row = |t: Map<Seq<char>, ClaimView>, r: ClaimView|
        if t.contains_key(r.claim_id) {
            ClaimView { created_at: t[r.claim_id].created_at, ..r }
        } else {
            r
        };
    let holds = |row: ClaimView, r: ClaimView| (ClaimView { created_at: r.created_at, ..row }) == r;
    lemma_claim_steps(db, items, key, row);
    lemma_upserted(db.claims, views_of(items), key, row, holds);
}

proof fn lemma_claim_steps(
    db: Tables,
    items: Seq<ClaimRecord>,
    key: spec_fn(ClaimView) -> Seq<char>,
    row: spec_fn(Map<Seq<char>, ClaimView>, ClaimView) -> ClaimView,
)
    requires
        key == (|r: ClaimView| r.claim_id),
        row == (|t: Map<Seq<char>, ClaimView>, r: ClaimView|
        if t.contains_key(r.claim_id) {
            ClaimView { created_at: t[r.claim_id].created_at, ..r }
        } else {
            r
        }),
    ensures
        ({
            let after = applied_all(db, claim_all(items));
            after == (Tables {
                claims: upserted(db.claims, views_of(items), key, row),
                operations: after.operations,
                ..db
            })
        }),
    decreases items.len(),
{
    if items.len() > 0 {
        let head = items.drop_last();
        let steps = claim_steps(items.last());
        lemma_claim_steps(db, head, key, row);
        let mid = applied_all(db, claim_all(head));
        lemma_applied_concat(db, claim_all(head), steps);
        lemma_applied_two(mid, steps[0], steps[1]);
        assert(steps =~= seq![steps[0], steps[1]]);
        assert(views_of(items).drop_last() =~= views_of(head));
        assert(views_of(items).last() == items.last()@);
    }
}

/// Whether links of claims to entities were written; a row holds what was written.
pub open spec fn claim_entity_written(before: Tables, after: Tables, items: Seq<ClaimEntityView>) -> bool {
    written(
        before.claim_entities,
        after.claim_entities,
        items,
        |r: ClaimEntityView| (r.claim_id, r.entity_id, r.role),
        |row: ClaimEntityView, r: ClaimEntityView| row == r,
    )
}

proof fn lemma_claim_entity_all(db: Tables, items: Seq<ClaimEntityLink>)
    ensures
        ({
            let after = applied_all(db, claim_entity_all(items));
            &&& after == (Tables { claim_entities: after.claim_entities, operations: after.operations, ..db })
            &&& claim_entity_written(db, after, views_of(items))
        }),
{
    let key = |r: ClaimEntityView| (r.claim_id, r.entity_id, r.role);
    let row = |t: Map<(Seq<char>, Seq<char>, Seq<char>), ClaimEntityView>, r: ClaimEntityView| r;
    let holds = |row: ClaimEntityView, r: ClaimEntityView| row == r;
    lemma_claim_entity_steps(db, items, key, row);
    lemma_upserted(db.claim_entities, views_of(items), key, row, holds);
}

proof fn lemma_claim_entity_steps(
    db: Tables,
    items: Seq<ClaimEntityLink>,
    key: spec_fn(ClaimEntityView) -> (Seq<char>, Seq<char>, Seq<char>),
    row: spec_fn(Map<(Seq<char>, Seq<char>, Seq<char>), ClaimEntityView>, ClaimEntityView) -> ClaimEntityView,
)
    requires
        key == (|r: ClaimEntityView| (r.claim_id, r.entity_id, r.role)),
        row == (|t: Map<(Seq<char>, Seq<char>, Seq<char>), ClaimEntityView>, r: ClaimEntityView| r),
    ensures
        ({
            let after = applied_all(db, claim_entity_all(items));
            after == (Tables {
                claim_entities: upserted(db.claim_entities, views_of(items), key, row),
                operations: after.operations,
                ..db
            })
        }),
    decreases items.len(),
{
    if items.len() > 0 {
        let head = items.drop_last();
        let steps = claim_entity_steps(items.last());
        lemma_claim_entity_steps(db, head, key, row);
        let mid = applied_all(db, claim_entity_all(head));
        lemma_applied_concat(db, claim_entity_all(head), steps);
        lemma_applied_two(mid, steps[0], steps[1]);
        assert(steps =~= seq![steps[0], steps[1]]);
        assert(views_of(items).drop_last() =~= views_of(head));
        assert(views_of(items).last() == items.last()@);
    }
}

/// Whether evidence for claims were written; a row holds what was written, but for the time of its creation.
pub open spec fn claim_evidence_written(before: Tables, after: Tables, items: Seq<ClaimEvidenceView>) -> bool {
    written(
        before.claim_evidence,
        after.claim_evidence,
        items,
        |r: ClaimEvidenceView| r.evidence_id,
        |row: ClaimEvidenceView, r: ClaimEvidenceView| (ClaimEvidenceView { created_at: r.created_at, ..row }) == r,
    )
}

proof fn lemma_claim_evidence_all(db: Tables, items: Seq<ClaimEvidence>)
    ensures
        ({
            let after = applied_all(db, claim_evidence_all(items));
            &&& after == (Tables { claim_evidence: after.claim_evidence, operations: after.operations, ..db })
            &&& claim_evidence_written(db, after, views_of(items))
        }),
{
    let key = |r: ClaimEvidenceView| r.evidence_id;
    let row = |t: Map<Seq<char>, ClaimEvidenceView>, r: ClaimEvidenceView|
        if t.contains_key(r.evidence_id) {
            ClaimEvidenceView { created_at: t[r.evidence_id].created_at, ..r }
        } else {
            r
        };
    let holds = |row: ClaimEvidenceView, r: ClaimEvidenceView| (ClaimEvidenceView { created_at: r.created_at, ..row }) == r;
    lemma_claim_evidence_steps(db, items, key, row);
    lemma_upserted(db.claim_evidence, views_of(items), key, row, holds);
}

proof fn lemma_claim_evidence_steps(
    db: Tables,
    items: Seq<ClaimEvidence>,
    key: spec_fn(ClaimEvidenceView) -> Seq<char>,
    row: spec_fn(Map<Seq<char>, ClaimEvidenceView>, ClaimEvidenceView) -> ClaimEvidenceView,
)
    requires
        key == (|r: ClaimEvidenceView| r.evidence_id),
        row == (|t: Map<Seq<char>, ClaimEvidenceView>, r: ClaimEvidenceView|
        if t.contains_key(r.evidence_id) {
            ClaimEvidenceView { created_at: t[r.evidence_id].created_at, ..r }
        } else {
            r
        }),
    ensures
        ({
            let after = applied_all(db, claim_evidence_all(items));
            after == (Tables {
                claim_evidence: upserted(db.claim_evidence, views_of(items), key, row),
                operations: after.operations,
                ..db
            })
        }),
    decreases items.len(),
{
    if items.len() > 0 {
        let head = items.drop_last();
        let steps = claim_evidence_steps(items.last());
        lemma_claim_evidence_steps(db, head, key, row);
        let mid = applied_all(db, claim_evidence_all(head));
        lemma_applied_concat(db, claim_evidence_all(head), steps);
        lemma_applied_two(mid, steps[0], steps[1]);
        assert(steps =~= seq![steps[0], steps[1]]);
        assert(views_of(items).drop_last() =~= views_of(head));
        assert(views_of(items).last() == items.last()@);
    }
}

/// Whether relationships were written; a row holds what was written, but for the time of its creation.
pub open spec fn relationship_written(before: Tables, after: Tables, items: Seq<RelationshipView>) -> bool {
    written(
        before.relationships,
        after.relationships,
        items,
        |r: RelationshipView| r.relationship_id,
        |row: RelationshipView, r: RelationshipView| (RelationshipView { created_at: r.created_at, ..row }) == r,
    )
}

proof fn lemma_relationship_all(db: Tables, items: Seq<EntityRelationship>)
    ensures
        ({
            let after = applied_all(db, relationship_all(items));
            &&& after == (Tables { relationships: after.relationships, operations: after.operations, ..db })
            &&& relationship_written(db, after, views_of(items))
        }),
{
    let key = |r: RelationshipView| r.relationship_id;
    let row = |t: Map<Seq<char>, RelationshipView>, r: RelationshipView|
        if t.contains_key(r.relationship_id) {
            RelationshipView { created_at: t[r.relationship_id].created_at, ..r }
        } else {
            r
        };
    let holds = |row: RelationshipView, r: RelationshipView| (RelationshipView { created_at: r.created_at, ..row }) == r;
    lemma_relationship_steps(db, items, key, row);
    lemma_upserted(db.relationships, views_of(items), key, row, holds);
}

proof fn lemma_relationship_steps(
    db: Tables,
    items: Seq<EntityRelationship>,
    key: spec_fn(RelationshipView) -> Seq<char>,
    row: spec_fn(Map<Seq<char>, RelationshipView>, RelationshipView) -> RelationshipView,
)
    requires
        key == (|r: RelationshipView| r.relationship_id),
        row == (|t: Map<Seq<char>, RelationshipView>, r: RelationshipView|
        if t.contains_key(r.relationship_id) {
            RelationshipView { created_at: t[r.relationship_id].created_at, ..r }
        } else {
            r
        }),
    ensures
        ({
            let after = applied_all(db, relationship_all(items));
            after == (Tables {
                relationships: upserted(db.relationships, views_of(items), key, row),
                operations: after.operations,
                ..db
            })
        }),
    decreases items.len(),
{
    if items.len() > 0 {
        let head = items.drop_last();
        let steps = relationship_steps(items.last());
        lemma_relationship_steps(db, head, key, row);
        let mid = applied_all(db, relationship_all(head));
        lemma_applied_concat(db, relationship_all(head), steps);
        lemma_applied_two(mid, steps[0], steps[1]);
        assert(steps =~= seq![steps[0], steps[1]]);
        assert(views_of(items).drop_last() =~= views_of(head));
        assert(views_of(items).last() == items.last()@);
    }
}

/// Whether evidence for relationships were written; a row holds what was written, but for the time of its creation.
pub open spec fn relationship_evidence_written(before: Tables, after: Tables, items: Seq<RelationshipEvidenceView>) -> bool {
    written(
        before.relationship_evidence,
        after.relationship_evidence,
        items,
        |r: RelationshipEvidenceView| r.evidence_id,
        |row: RelationshipEvidenceView, r: RelationshipEvidenceView| (RelationshipEvidenceView { created_at: r.created_at, ..row }) == r,
    )
}

proof fn lemma_relationship_evidence_all(db: Tables, items: Seq<RelationshipEvidence>)
    ensures
        ({
            let after = applied_all(db, relationship_evidence_all(items));
            &&& after == (Tables { relationship_evidence: after.relationship_evidence, operations: after.operations, ..db })
            &&& relationship_evidence_written(db, after, views_of(items))
        }),
{
    let key = |r: RelationshipEvidenceView| r.evidence_id;
    let row = |t: Map<Seq<char>, RelationshipEvidenceView>, r: RelationshipEvidenceView|
        if t.contains_key(r.evidence_id) {
            RelationshipEvidenceView { created_at: t[r.evidence_id].created_at, ..r }
        } else {
            r
        };
    let holds = |row: RelationshipEvidenceView, r: RelationshipEvidenceView| (RelationshipEvidenceView { created_at: r.created_at, ..row }) == r;
    lemma_relationship_evidence_steps(db, items, key, row);
    lemma_upserted(db.relationship_evidence, views_of(items), key, row, holds);
}

proof fn lemma_relationship_evidence_steps(
    db: Tables,
    items: Seq<RelationshipEvidence>,
    key: spec_fn(RelationshipEvidenceView) -> Seq<char>,
    row: spec_fn(Map<Seq<char>, RelationshipEvidenceView>, RelationshipEvidenceView) -> RelationshipEvidenceView,
)
    requires
        key == (|r: RelationshipEvidenceView| r.evidence_id),
        row == (|t: Map<Seq<char>, RelationshipEvidenceView>, r: RelationshipEvidenceView|
        if t.contains_key(r.evidence_id) {
            RelationshipEvidenceView { created_at: t[r.evidence_id].created_at, ..r }
        } else {
            r
        }),
    ensures
        ({
            let after = applied_all(db, relationship_evidence_all(items));
            after == (Tables {
                relationship_evidence: upserted(db.relationship_evidence, views_of(items), key, row),
                operations: after.operations,
                ..db
            })
        }),
    decreases items.len(),
{
    if items.len() > 0 {
        let head = items.drop_last();
        let steps = relationship_evidence_steps(items.last());
        lemma_relationship_evidence_steps(db, head, key, row);
        let mid = applied_all(db, relationship_evidence_all(head));
        lemma_applied_concat(db, relationship_evidence_all(head), steps);
        lemma_applied_two(mid, steps[0], steps[1]);
        assert(steps =~= seq![steps[0], steps[1]]);
        assert(views_of(items).drop_last() =~= views_of(head));
        assert(views_of(items).last() == items.last()@);
    }
}

/// Writing entities, aliases and links in one go changes nothing else but the
/// audit trail, and each is there under its key.
pub proof fn law_bundle_is_written(
    db: Tables,
    entities: Seq<EntityRecord>,
    aliases: Seq<EntityAlias>,
    links: Seq<MemoryEntityLink>,
)
    ensures
        ({
            let after = applied_all(db, bundle_steps(entities, aliases, links));
            &&& after == (Tables {
                entities: after.entities,
                aliases: after.aliases,
                memory_entities: after.memory_entities,
                operations: after.operations,
                ..db
            })
            &&& entity_written(db, after, views_of(entities))
            &&& alias_written(db, after, views_of(aliases))
            &&& memory_entity_written(db, after, views_of(links))
        }),
{
    let a = entity_all(entities);
    let b = alias_all(aliases);
    let c = memory_entity_all(links);
    let d1 = applied_all(db, a);
    let d2 = applied_all(d1, b);
    lemma_applied_concat(db, a, b);
    lemma_applied_concat(db, a + b, c);
    lemma_entity_all(db, entities);
    lemma_alias_all(d1, aliases);
    lemma_memory_entity_all(d2, links);
}

/// Replacing the entity links of a memory leaves exactly the given ones, and
/// those of other memories as they were.
pub proof fn law_links_replaced(
    db: Tables,
    id: MemoryId,
    entities: Seq<EntityRecord>,
    aliases: Seq<EntityAlias>,
    links: Seq<MemoryEntityLink>,
)
    requires
        forall|i: int| 0 <= i < links.len() ==> (#[trigger] links[i]).memory_id == id,
        forall|k: (MemoryId, Seq<char>, Seq<char>)| #[trigger]
            db.memory_entities.contains_key(k) ==> db.memory_entities[k].memory_id == k.0,
    ensures
        ({
            let after = applied_all(db, replace_steps(id, entities, aliases, links));
            &&& forall|k: (MemoryId, Seq<char>, Seq<char>)|
                k.0 == id ==> (#[trigger] after.memory_entities.contains_key(k) <==> has_key(
                    views_of(links),
                    |r: LinkColumns| link_key(r),
                    k,
                ))
            &&& forall|k: (MemoryId, Seq<char>, Seq<char>)|
                k.0 != id ==> (#[trigger] after.memory_entities.contains_key(k)
                    <==> db.memory_entities.contains_key(k)) && (db.memory_entities.contains_key(k)
                    ==> after.memory_entities[k] == db.memory_entities[k])
        }),
{
    let clear = seq![Step::MemoryEntitiesClear(id)];
    let bundle = bundle_steps(entities, aliases, links);
    let all = replace_steps(id, entities, aliases, links);
    let record = seq![all.last()];
    let d1 = applied_all(db, clear);
    let d2 = applied_all(d1, bundle);
    let key = |r: LinkColumns| link_key(r);
    let v = views_of(links);
    lemma_applied_concat(db, clear, bundle);
    lemma_applied_concat(db, clear + bundle, record);
    lemma_applied_one(db, clear[0]);
    lemma_applied_one(d2, all.last());
    law_bundle_is_written(d1, entities, aliases, links);
    assert(all =~= clear + bundle + record);
    let after = applied_all(db, all);
    assert(after.memory_entities == d2.memory_entities);
    assert forall|k: (MemoryId, Seq<char>, Seq<char>)| has_key(v, key, k) implies k.0 == id by {
        let i = choose|i: int| 0 <= i < v.len() && key(#[trigger] v[i]) == k;
        assert(links[i].memory_id == id);
    }
    assert forall|k: (MemoryId, Seq<char>, Seq<char>)| k.0 == id implies (
    #[trigger] after.memory_entities.contains_key(k) <==> has_key(v, key, k)) by {
        assert(!d1.memory_entities.contains_key(k)) by {
            if db.memory_entities.contains_key(k) {
                assert(db.memory_entities[k].memory_id == id);
            }
        }
        if has_key(v, key, k) {
            let i = choose|i: int| 0 <= i < v.len() && key(#[trigger] v[i]) == k;
            assert(d2.memory_entities.contains_key(key(v[i])));
        }
    }
    assert forall|k: (MemoryId, Seq<char>, Seq<char>)| k.0 != id implies (
    #[trigger] after.memory_entities.contains_key(k) <==> db.memory_entities.contains_key(k)) && (
    db.memory_entities.contains_key(k) ==> after.memory_entities[k]
        == db.memory_entities[k]) by {
        assert(!has_key(v, key, k));
        assert(d1.memory_entities.contains_key(k) <==> db.memory_entities.contains_key(k));
    }
}

/// An event is always accepted: its conversation is there before it is written,
/// and was last changed no earlier than the event was observed. A conversation
/// that was there keeps its title, its metadata and the time of its creation.
pub proof fn law_event_is_added(db: Tables, event: ConversationEvent)
    ensures
        ({
            let e = event@;
            let touch = Step::ConversationTouch(e);
            let after = applied_all(db, seq![touch] + event_steps(event));
            let c = after.conversations[e.conversation_id];
            &&& step_fits(applied(db, touch), Step::Event(e))
            &&& after.conversations.contains_key(e.conversation_id)
            &&& signed_bits(c.updated_at) >= signed_bits(e.observed_at)
            &&& db.conversations.contains_key(e.conversation_id) ==> {
                let before = db.conversations[e.conversation_id];
                &&& c.title == before.title
                &&& c.metadata_json == before.metadata_json
                &&& c.created_at == before.created_at
                &&& signed_bits(c.updated_at) >= signed_bits(before.updated_at)
            }
            &&& after.events.contains_key(e.event_id)
            &&& (EventView { created_at: e.created_at, ..after.events[e.event_id] }) == e
            &&& forall|k: Seq<char>|
                k != e.conversation_id ==> (#[trigger] after.conversations.contains_key(k)
                    <==> db.conversations.contains_key(k)) && after.conversations[k]
                    == db.conversations[k]
        }),
{
    let e = event@;
    let touch = Step::ConversationTouch(e);
    let steps = event_steps(event);
    lemma_applied_concat(db, seq![touch], steps);
    lemma_applied_one(db, touch);
    lemma_applied_two(applied(db, touch), steps[0], steps[1]);
    assert(steps =~= seq![steps[0], steps[1]]);
}

/// Whether a claim is found under an entity.
pub open spec fn claim_of_entity(db: Tables, claim_id: Seq<char>, entity_id: Seq<char>) -> bool {
    exists|role: Seq<char>| #[trigger]
        db.claim_entities.contains_key((claim_id, entity_id, role))
}

/// Whether a claim has evidence in a memory.
pub open spec fn claim_of_memory(db: Tables, claim_id: Seq<char>, memory_id: MemoryId) -> bool {
    exists|k: Seq<char>| #[trigger]
        db.claim_evidence.contains_key(k) && db.claim_evidence[k].claim_id == claim_id
            && db.claim_evidence[k].memory_id == memory_id
}

/// A claim that was written with its links and evidence is found under its
/// entities, and under the memories of its evidence.
pub proof fn law_claim_is_found(
    db: Tables,
    claim: ClaimRecord,
    entities: Seq<ClaimEntityLink>,
    evidence: Seq<ClaimEvidence>,
)
    ensures
        ({
            let after = applied_all(db, claim_bundle_steps(claim, entities, evidence));
            &&& after.claims.contains_key(claim@.claim_id)
            &&& (ClaimView {
                created_at: claim.created_at,
                ..after.claims[claim@.claim_id]
            }) == claim@
            &&& forall|i: int|
                0 <= i < entities.len() ==> claim_of_entity(
                    after,
                    (#[trigger] entities[i])@.claim_id,
                    entities[i]@.entity_id,
                )
            &&& forall|i: int|
                0 <= i < evidence.len() && is_last(
                    views_of(evidence),
                    |r: ClaimEvidenceView| r.evidence_id,
                    i,
                ) ==> claim_of_memory(
                    after,
                    (#[trigger] evidence[i])@.claim_id,
                    evidence[i].memory_id,
                )
        }),
{
    let a = claim_steps(claim);
    let b = claim_entity_all(entities);
    let c = claim_evidence_all(evidence);
    let d1 = applied_all(db, a);
    let d2 = applied_all(d1, b);
    lemma_applied_concat(db, a, b);
    lemma_applied_concat(db, a + b, c);
    lemma_applied_two(db, a[0], a[1]);
    assert(a =~= seq![a[0], a[1]]);
    lemma_claim_entity_all(d1, entities);
    lemma_claim_evidence_all(d2, evidence);
    let after = applied_all(d2, c);
    lemma_found(after, d1, d2, entities, evidence);
}

proof fn lemma_found(
    after: Tables,
    d1: Tables,
    d2: Tables,
    entities: Seq<ClaimEntityLink>,
    evidence: Seq<ClaimEvidence>,
)
    requires
        claim_entity_written(d1, d2, views_of(entities)),
        claim_evidence_written(d2, after, views_of(evidence)),
        after.claim_entities == d2.claim_entities,
    ensures
        forall|i: int|
            0 <= i < entities.len() ==> claim_of_entity(
                after,
                (#[trigger] entities[i])@.claim_id,
                entities[i]@.entity_id,
            ),
        forall|i: int|
            0 <= i < evidence.len() && is_last(
                views_of(evidence),
                |r: ClaimEvidenceView| r.evidence_id,
                i,
            ) ==> claim_of_memory(
                after,
                (#[trigger] evidence[i])@.claim_id,
                evidence[i].memory_id,
            ),
{
    let ve = views_of(entities);
    let vv = views_of(evidence);
    assert forall|i: int| 0 <= i < entities.len() implies claim_of_entity(
        after,
        (#[trigger] entities[i])@.claim_id,
        entities[i]@.entity_id,
    ) by {
        let r = ve[i];
        assert(r == entities[i]@);
        assert(after.claim_entities.contains_key((r.claim_id, r.entity_id, r.role)));
    }
    assert forall|i: int|
        0 <= i < evidence.len() && is_last(
            vv,
            |r: ClaimEvidenceView| r.evidence_id,
            i,
        ) implies claim_of_memory(
        after,
        (#[trigger] evidence[i])@.claim_id,
        evidence[i].memory_id,
    ) by {
        let r = vv[i];
        assert(r == evidence[i]@);
        assert(after.claim_evidence.contains_key(r.evidence_id));
    }
}

/// What a run derived is there after it was stored, all of it: the run, every
/// claim with its links and evidence, every relationship with its evidence.
pub proof fn law_artifacts_are_stored(db: Tables, batch: ValidatedExtractionBatch)
    ensures
        ({
            let after = applied_all(db, artifact_steps(batch));
            &&& after.runs.contains_key(batch.run@.run_id)
            &&& claim_written(db, after, views_of(batch.claims@))
            &&& claim_entity_written(db, after, views_of(batch.claim_entities@))
            &&& claim_evidence_written(db, after, views_of(batch.claim_evidence@))
            &&& relationship_written(db, after, views_of(batch.relationships@))
            &&& relationship_evidence_written(db, after, views_of(batch.relationship_evidence@))
        }),
{
    let s0 = run_steps(batch.run);
    let s1 = claim_all(batch.claims@);
    let s2 = claim_entity_all(batch.claim_entities@);
    let s3 = claim_evidence_all(batch.claim_evidence@);
    let s4 = relationship_all(batch.relationships@);
    let s5 = relationship_evidence_all(batch.relationship_evidence@);
    let all = artifact_steps(batch);
    let s6 = seq![all.last()];
    let d0 = applied_all(db, s0);
    let d1 = applied_all(d0, s1);
    let d2 = applied_all(d1, s2);
    let d3 = applied_all(d2, s3);
    let d4 = applied_all(d3, s4);
    let d5 = applied_all(d4, s5);
    lemma_applied_concat(db, s0, s1);
    lemma_applied_concat(db, s0 + s1, s2);
    lemma_applied_concat(db, s0 + s1 + s2, s3);
    lemma_applied_concat(db, s0 + s1 + s2 + s3, s4);
    lemma_applied_concat(db, s0 + s1 + s2 + s3 + s4, s5);
    lemma_applied_concat(db, s0 + s1 + s2 + s3 + s4 + s5, s6);
    assert(all =~= s0 + s1 + s2 + s3 + s4 + s5 + s6);
    lemma_applied_two(db, s0[0], s0[1]);
    assert(s0 =~= seq![s0[0], s0[1]]);
    lemma_applied_one(d5, all.last());
    lemma_claim_all(d0, batch.claims@);
    lemma_claim_entity_all(d1, batch.claim_entities@);
    lemma_claim_evidence_all(d2, batch.claim_evidence@);
    lemma_relationship_all(d3, batch.relationships@);
    lemma_relationship_evidence_all(d4, batch.relationship_evidence@);
}

} // verus!
