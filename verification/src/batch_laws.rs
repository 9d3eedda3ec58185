//! Which batches of extracted records are accepted.
use crate::extraction_jobs::{
    batch_problem, claim_entity_problem, claim_evidence_problem, claim_problem, first_problem,
    relationship_evidence_problem, relationship_problem, ValidatedExtractionBatch,
};
use crate::float::Single;
use crate::json::{json_kind, JsonKind};
use crate::memory::{ErrorView, Timestamp};
use crate::records::{
    ClaimEntityLink, ClaimEvidence, ClaimRecord, EntityRelationship, RelationshipEvidence,
};
use crate::text::{trimmed, white_space, CharClass};
use crate::text_laws::{law_bits_order, law_trim};
use vstd::prelude::*;

verus! {

/// Whether a text holds more than white space.
pub open spec fn says_something(s: Seq<char>) -> bool {
    exists|i: int| 0 <= i < s.len() && !white_space(#[trigger] s[i])
}

proof fn lemma_says_something(s: Seq<char>)
    ensures
        says_something(s) <==> trimmed(s).len() > 0,
{
    law_trim(s, CharClass::White);
    let (from, to) = choose|from: int, to: int|
        0 <= from <= to <= s.len() && trimmed(s) == #[trigger] s.subrange(from, to) && (forall|
            j: int,
        |
            0 <= j < from || to <= j < s.len() ==> CharClass::White.holds(#[trigger] s[j])) && (from
            < to ==> !CharClass::White.holds(s[from]) && !CharClass::White.holds(s[to - 1]));
    if from < to {
        assert(!white_space(s[from]));
    } else if says_something(s) {
        let i = choose|i: int| 0 <= i < s.len() && !white_space(#[trigger] s[i]);
        assert(CharClass::White.holds(s[i]));
    }
}

/// Whether a value is a number from 0 to 1.
pub open spec fn from_0_to_1(c: Single) -> bool {
    c.bits <= 0x3f80_0000 || c.bits == 0x8000_0000
}

proof fn lemma_none_wrong<A>(items: Seq<A>, problem: spec_fn(A) -> Option<ErrorView>)
    ensures
        first_problem(items, problem) is None <==> forall|i: int|
            0 <= i < items.len() ==> problem(#[trigger] items[i]) is None,
    decreases items.len(),
{
    if items.len() > 0 {
        let head = items.drop_last();
        lemma_none_wrong(head, problem);
        if first_problem(items, problem) is None {
            assert forall|i: int| 0 <= i < items.len() implies problem(
                #[trigger] items[i],
            ) is None by {
                if i < head.len() {
                    assert(problem(head[i]) is None);
                }
            }
        }
        if forall|i: int| 0 <= i < items.len() ==> problem(#[trigger] items[i]) is None {
            assert forall|i: int| 0 <= i < head.len() implies problem(
                #[trigger] head[i],
            ) is None by {
                assert(problem(items[i]) is None);
            }
            assert(problem(items[items.len() - 1]) is None);
        }
    }
}

/// A claim is accepted if and only if its identity, text, type and status say
/// something, its confidence is a number from 0 to 1, it does not cease to hold
/// before it begins to, and its attributes are a JSON object.
pub proof fn law_claim_accepted(c: ClaimRecord)
    ensures
        claim_problem(c) is None <==> {
            &&& says_something(c.claim_id@)
            &&& says_something(c.claim_text@)
            &&& says_something(c.claim_type@)
            &&& says_something(c.status@)
            &&& from_0_to_1(c.confidence)
            &&& c.valid_from is Some && c.valid_until is Some ==> c.valid_from->0
                <= c.valid_until->0
            &&& json_kind(c.attributes_json@) matches Ok(JsonKind::Object)
        },
{
    lemma_says_something(c.claim_id@);
    lemma_says_something(c.claim_text@);
    lemma_says_something(c.claim_type@);
    lemma_says_something(c.status@);
    law_bits_order(c.confidence, c.confidence);
}

/// A relationship is accepted if and only if its identity, both its ends, its type
/// and its status say something, its confidence is a number from 0 to 1, it does
/// not cease to hold before it begins to, and its attributes are a JSON object.
pub proof fn law_relationship_accepted(r: EntityRelationship)
    ensures
        relationship_problem(r) is None <==> {
            &&& says_something(r.relationship_id@)
            &&& says_something(r.source_entity_id@)
            &&& says_something(r.target_entity_id@)
            &&& says_something(r.relation_type@)
            &&& says_something(r.status@)
            &&& from_0_to_1(r.confidence)
            &&& r.valid_from is Some && r.valid_until is Some ==> r.valid_from->0
                <= r.valid_until->0
            &&& json_kind(r.attributes_json@) matches Ok(JsonKind::Object)
        },
{
    lemma_says_something(r.relationship_id@);
    lemma_says_something(r.source_entity_id@);
    lemma_says_something(r.target_entity_id@);
    lemma_says_something(r.relation_type@);
    lemma_says_something(r.status@);
    law_bits_order(r.confidence, r.confidence);
}

/// What is said of a claim is accepted if and only if the batch holds the claim,
/// the entity and its role say something, and the confidence is a number from 0
/// to 1; evidence, if and only if the batch holds what it is for, the confidence is
/// a number from 0 to 1, and its span does not end before it starts.
pub proof fn law_links_accepted(
    claims: Seq<ClaimRecord>,
    relationships: Seq<EntityRelationship>,
    link: ClaimEntityLink,
    e: ClaimEvidence,
    f: RelationshipEvidence,
)
    ensures
        claim_entity_problem(claims, link) is None <==> {
            &&& exists|i: int| 0 <= i < claims.len() && (#[trigger] claims[i]).claim_id@
                == link.claim_id@
            &&& says_something(link.entity_id@)
            &&& says_something(link.role@)
            &&& from_0_to_1(link.confidence)
        },
        claim_evidence_problem(claims, e) is None <==> {
            &&& exists|i: int| 0 <= i < claims.len() && (#[trigger] claims[i]).claim_id@
                == e.claim_id@
            &&& from_0_to_1(e.confidence)
            &&& e.span_start is Some && e.span_end is Some ==> e.span_start->0 <= e.span_end->0
        },
        relationship_evidence_problem(relationships, f) is None <==> {
            &&& exists|i: int|
                0 <= i < relationships.len() && (#[trigger] relationships[i]).relationship_id@
                    == f.relationship_id@
            &&& from_0_to_1(f.confidence)
            &&& f.span_start is Some && f.span_end is Some ==> f.span_start->0 <= f.span_end->0
        },
{
    lemma_says_something(link.entity_id@);
    lemma_says_something(link.role@);
    law_bits_order(link.confidence, link.confidence);
    law_bits_order(e.confidence, e.confidence);
    law_bits_order(f.confidence, f.confidence);
}

/// Whether a period that has both bounds ends no earlier than it begins.
pub open spec fn in_order(from: Option<Timestamp>, until: Option<Timestamp>) -> bool {
    from is Some && until is Some ==> from->0 <= until->0
}

/// Whether the texts of a batch that must say something do.
pub open spec fn texts_said(b: ValidatedExtractionBatch) -> bool {
    &&& says_something(b.run.run_id@)
    &&& says_something(b.run.extractor@)
    &&& says_something(b.run.extractor_version@)
    &&& says_something(b.run.status@)
    &&& forall|i: int|
        0 <= i < b.claims@.len() ==> {
            &&& says_something((#[trigger] b.claims@[i]).claim_id@)
            &&& says_something(b.claims@[i].claim_text@)
            &&& says_something(b.claims@[i].claim_type@)
            &&& says_something(b.claims@[i].status@)
        }
    &&& forall|i: int|
        0 <= i < b.claim_entities@.len() ==> {
            &&& says_something((#[trigger] b.claim_entities@[i]).entity_id@)
            &&& says_something(b.claim_entities@[i].role@)
        }
    &&& forall|i: int|
        0 <= i < b.relationships@.len() ==> {
            &&& says_something((#[trigger] b.relationships@[i]).relationship_id@)
            &&& says_something(b.relationships@[i].source_entity_id@)
            &&& says_something(b.relationships@[i].target_entity_id@)
            &&& says_something(b.relationships@[i].relation_type@)
            &&& says_something(b.relationships@[i].status@)
        }
}

/// Whether every confidence of a batch is a number from 0 to 1.
pub open spec fn confidences_fit(b: ValidatedExtractionBatch) -> bool {
    &&& forall|i: int|
        0 <= i < b.claims@.len() ==> from_0_to_1((#[trigger] b.claims@[i]).confidence)
    &&& forall|i: int|
        0 <= i < b.claim_entities@.len() ==> from_0_to_1(
            (#[trigger] b.claim_entities@[i]).confidence,
        )
    &&& forall|i: int|
        0 <= i < b.claim_evidence@.len() ==> from_0_to_1(
            (#[trigger] b.claim_evidence@[i]).confidence,
        )
    &&& forall|i: int|
        0 <= i < b.relationships@.len() ==> from_0_to_1((#[trigger] b.relationships@[i]).confidence)
    &&& forall|i: int|
        0 <= i < b.relationship_evidence@.len() ==> from_0_to_1(
            (#[trigger] b.relationship_evidence@[i]).confidence,
        )
}

/// Whether every period and every span of a batch is in order.
pub open spec fn bounds_in_order(b: ValidatedExtractionBatch) -> bool {
    &&& forall|i: int|
        0 <= i < b.claims@.len() ==> in_order(
            (#[trigger] b.claims@[i]).valid_from,
            b.claims@[i].valid_until,
        )
    &&& forall|i: int|
        0 <= i < b.relationships@.len() ==> in_order(
            (#[trigger] b.relationships@[i]).valid_from,
            b.relationships@[i].valid_until,
        )
    &&& forall|i: int|
        0 <= i < b.claim_evidence@.len() && (#[trigger] b.claim_evidence@[i]).span_start is Some
            && b.claim_evidence@[i].span_end is Some ==> b.claim_evidence@[i].span_start->0
            <= b.claim_evidence@[i].span_end->0
    &&& forall|i: int|
        0 <= i < b.relationship_evidence@.len() && (
        #[trigger] b.relationship_evidence@[i]).span_start is Some
            && b.relationship_evidence@[i].span_end is Some
            ==> b.relationship_evidence@[i].span_start->0
            <= b.relationship_evidence@[i].span_end->0
}

/// Whether the JSON texts of a batch are objects.
pub open spec fn objects_given(b: ValidatedExtractionBatch) -> bool {
    &&& json_kind(b.run.output_json@) matches Ok(JsonKind::Object)
    &&& forall|i: int|
        0 <= i < b.claims@.len() ==> (json_kind((#[trigger] b.claims@[i]).attributes_json@) matches Ok(
            JsonKind::Object,
        ))
    &&& forall|i: int|
        0 <= i < b.relationships@.len() ==> (json_kind(
            (#[trigger] b.relationships@[i]).attributes_json@,
        ) matches Ok(JsonKind::Object))
}

/// Whether a batch holds a claim.
pub open spec fn has_claim(b: ValidatedExtractionBatch, id: Seq<char>) -> bool {
    exists|i: int| 0 <= i < b.claims@.len() && (#[trigger] b.claims@[i]).claim_id@ == id
}

/// Whether a batch holds a relationship.
pub open spec fn has_relationship(b: ValidatedExtractionBatch, id: Seq<char>) -> bool {
    exists|i: int|
        0 <= i < b.relationships@.len() && (#[trigger] b.relationships@[i]).relationship_id@ == id
}

/// Whether a batch holds all that its records refer to.
pub open spec fn references_known(b: ValidatedExtractionBatch) -> bool {
    &&& forall|i: int|
        0 <= i < b.claim_entities@.len() ==> has_claim(
            b,
            (#[trigger] b.claim_entities@[i]).claim_id@,
        )
    &&& forall|i: int|
        0 <= i < b.claim_evidence@.len() ==> has_claim(
            b,
            (#[trigger] b.claim_evidence@[i]).claim_id@,
        )
    &&& forall|i: int|
        0 <= i < b.relationship_evidence@.len() ==> has_relationship(
            b,
            (#[trigger] b.relationship_evidence@[i]).relationship_id@,
        )
}

/// A batch is accepted if and only if what must say something does, every
/// confidence is a number from 0 to 1, every period and every span is in order,
/// every JSON text is an object, and the batch holds all that is referred to.
pub proof fn law_batch_accepted(b: ValidatedExtractionBatch)
    ensures
        batch_problem(b) is None <==> texts_said(b) && confidences_fit(b) && bounds_in_order(b)
            && objects_given(b) && references_known(b),
{
    let claims = b.claims@;
    let relationships = b.relationships@;
    lemma_says_something(b.run.run_id@);
    lemma_says_something(b.run.extractor@);
    lemma_says_something(b.run.extractor_version@);
    lemma_says_something(b.run.status@);
    lemma_none_wrong(claims, |c: ClaimRecord| claim_problem(c));
    lemma_none_wrong(
        b.claim_entities@,
        |l: ClaimEntityLink| claim_entity_problem(claims, l),
    );
    lemma_none_wrong(b.claim_evidence@, |e: ClaimEvidence| claim_evidence_problem(claims, e));
    lemma_none_wrong(relationships, |r: EntityRelationship| relationship_problem(r));
    lemma_none_wrong(
        b.relationship_evidence@,
        |e: RelationshipEvidence| relationship_evidence_problem(relationships, e),
    );
    assert forall|c: ClaimRecord| (#[trigger] claim_problem(c)) is None <==> {
        &&& says_something(c.claim_id@)
        &&& says_something(c.claim_text@)
        &&& says_something(c.claim_type@)
        &&& says_something(c.status@)
        &&& from_0_to_1(c.confidence)
        &&& in_order(c.valid_from, c.valid_until)
        &&& json_kind(c.attributes_json@) matches Ok(JsonKind::Object)
    } by {
        law_claim_accepted(c);
    }
    assert forall|r: EntityRelationship| (#[trigger] relationship_problem(r)) is None <==> {
        &&& says_something(r.relationship_id@)
        &&& says_something(r.source_entity_id@)
        &&& says_something(r.target_entity_id@)
        &&& says_something(r.relation_type@)
        &&& says_something(r.status@)
        &&& from_0_to_1(r.confidence)
        &&& in_order(r.valid_from, r.valid_until)
        &&& json_kind(r.attributes_json@) matches Ok(JsonKind::Object)
    } by {
        law_relationship_accepted(r);
    }
    assert forall|l: ClaimEntityLink| (#[trigger] claim_entity_problem(claims, l)) is None <==> {
        &&& has_claim(b, l.claim_id@)
        &&& says_something(l.entity_id@)
        &&& says_something(l.role@)
        &&& from_0_to_1(l.confidence)
    } by {
        lemma_says_something(l.entity_id@);
        lemma_says_something(l.role@);
        law_bits_order(l.confidence, l.confidence);
    }
    assert forall|e: ClaimEvidence| (#[trigger] claim_evidence_problem(claims, e)) is None <==> {
        &&& has_claim(b, e.claim_id@)
        &&& from_0_to_1(e.confidence)
        &&& e.span_start is Some && e.span_end is Some ==> e.span_start->0 <= e.span_end->0
    } by {
        law_bits_order(e.confidence, e.confidence);
    }
    assert forall|e: RelationshipEvidence|
        (#[trigger] relationship_evidence_problem(relationships, e)) is None <==> {
            &&& has_relationship(b, e.relationship_id@)
            &&& from_0_to_1(e.confidence)
            &&& e.span_start is Some && e.span_end is Some ==> e.span_start->0 <= e.span_end->0
        } by {
        law_bits_order(e.confidence, e.confidence);
    }
    let said = texts_said(b) && confidences_fit(b) && bounds_in_order(b) && objects_given(b)
        && references_known(b);
    if batch_problem(b) is None {
        assert forall|i: int| 0 <= i < claims.len() implies claim_problem(
            #[trigger] claims[i],
        ) is None by {}
        assert forall|i: int| 0 <= i < relationships.len() implies relationship_problem(
            #[trigger] relationships[i],
        ) is None by {}
        assert forall|i: int| 0 <= i < b.claim_entities@.len() implies claim_entity_problem(
            claims,
            #[trigger] b.claim_entities@[i],
        ) is None by {}
        assert forall|i: int| 0 <= i < b.claim_evidence@.len() implies claim_evidence_problem(
            claims,
            #[trigger] b.claim_evidence@[i],
        ) is None by {}
        assert forall|i: int|
            0 <= i < b.relationship_evidence@.len() implies relationship_evidence_problem(
            relationships,
            #[trigger] b.relationship_evidence@[i],
        ) is None by {}
        assert(texts_said(b));
        assert(confidences_fit(b));
        assert(bounds_in_order(b));
        assert(objects_given(b));
        assert(references_known(b));
    }
    if said {
        assert forall|i: int| 0 <= i < claims.len() implies claim_problem(
            #[trigger] claims[i],
        ) is None by {}
        assert forall|i: int| 0 <= i < relationships.len() implies relationship_problem(
            #[trigger] relationships[i],
        ) is None by {}
        assert forall|i: int| 0 <= i < b.claim_entities@.len() implies claim_entity_problem(
            claims,
            #[trigger] b.claim_entities@[i],
        ) is None by {}
        assert forall|i: int| 0 <= i < b.claim_evidence@.len() implies claim_evidence_problem(
            claims,
            #[trigger] b.claim_evidence@[i],
        ) is None by {}
        assert forall|i: int|
            0 <= i < b.relationship_evidence@.len() implies relationship_evidence_problem(
            relationships,
            #[trigger] b.relationship_evidence@[i],
        ) is None by {}
    }
}

} // verus!
