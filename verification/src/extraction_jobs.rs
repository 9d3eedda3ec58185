//! Validation of derived knowledge before it is written.
use crate::float::Single;
use crate::json::{json_kind, parse_kind, JsonKind};
use crate::memory::{ErrorView, MenteError, Timestamp};
use crate::records::{
    ClaimEntityLink, ClaimEvidence, ClaimRecord, EntityRelationship, ExtractionRun,
    RelationshipEvidence,
};
use crate::text::{copy_text, text_eq, trim, trimmed};
use vstd::prelude::*;

verus! {

/// Derived knowledge from one extraction run.
///
/// The run metadata and all derived artifacts are stored together, so the
/// derived graph can be inspected or rebuilt later.
#[derive(Debug)]
pub struct ValidatedExtractionBatch {
    pub run: ExtractionRun,
    pub claims: Vec<ClaimRecord>,
    pub claim_entities: Vec<ClaimEntityLink>,
    pub claim_evidence: Vec<ClaimEvidence>,
    pub relationships: Vec<EntityRelationship>,
    pub relationship_evidence: Vec<RelationshipEvidence>,
}

// ---------------------------------------------------------------------------
// What is wrong with a value
// ---------------------------------------------------------------------------
/// The first of two problems.
pub open spec fn first(a: Option<ErrorView>, b: Option<ErrorView>) -> Option<ErrorView> {
    if a is Some {
        a
    } else {
        b
    }
}

/// Whether a result reports exactly the given problem.
pub open spec fn reports(res: Result<(), MenteError>, problem: Option<ErrorView>) -> bool {
    match res {
        Ok(_) => problem is None,
        Err(e) => problem == Some(e@),
    }
}

pub open spec fn blank_problem(value: Seq<char>, field: Seq<char>) -> Option<ErrorView> {
    if trimmed(value).len() == 0 {
        Some(ErrorView::InvalidInput(field + " must not be empty"@))
    } else {
        None
    }
}

pub open spec fn confidence_problem(value: Single, field: Seq<char>) -> Option<ErrorView> {
    if value.in_unit() {
        None
    } else {
        Some(ErrorView::InvalidInput(field + " must be finite and between 0 and 1"@))
    }
}

pub open spec fn span_problem(
    start: Option<i64>,
    end: Option<i64>,
    field: Seq<char>,
) -> Option<ErrorView> {
    if start is Some && end is Some && start->0 > end->0 {
        Some(ErrorView::InvalidInput(field + " start must be <= end"@))
    } else {
        None
    }
}

pub open spec fn time_problem(
    valid_from: Option<Timestamp>,
    valid_until: Option<Timestamp>,
    field: Seq<char>,
) -> Option<ErrorView> {
    if valid_from is Some && valid_until is Some && valid_from->0 > valid_until->0 {
        Some(ErrorView::InvalidInput(field + " start must be <= end"@))
    } else {
        None
    }
}

/// What is wrong with a text that should be a JSON object, where `kind` is what
/// parsing it gave.
pub open spec fn object_problem(
    kind: Result<JsonKind, Seq<char>>,
    field: Seq<char>,
) -> Option<ErrorView> {
    match kind {
        Ok(JsonKind::Object) => None,
        Ok(_) => Some(ErrorView::InvalidInput(field + " must be a JSON object"@)),
        Err(message) => Some(
            ErrorView::Serialization(field + " must be valid JSON: "@ + message),
        ),
    }
}

pub open spec fn unknown_problem(
    known: bool,
    value: Seq<char>,
    record: Seq<char>,
    field: Seq<char>,
) -> Option<ErrorView> {
    if known {
        None
    } else {
        Some(
            ErrorView::InvalidInput(
                record + " references unknown "@ + field + ": "@ + value,
            ),
        )
    }
}

/// What is wrong with a run.
pub open spec fn run_problem(run: ExtractionRun) -> Option<ErrorView> {
    first(
        blank_problem(run.run_id@, "extraction run id"@),
        first(
            blank_problem(run.extractor@, "extraction run extractor"@),
            first(
                blank_problem(run.extractor_version@, "extraction run extractor_version"@),
                first(
                    blank_problem(run.status@, "extraction run status"@),
                    object_problem(
                        json_kind(run.output_json@),
                        "extraction run output_json"@,
                    ),
                ),
            ),
        ),
    )
}

/// What is wrong with a claim.
pub open spec fn claim_problem(claim: ClaimRecord) -> Option<ErrorView> {
    first(
        blank_problem(claim.claim_id@, "claim id"@),
        first(
            blank_problem(claim.claim_text@, "claim text"@),
            first(
                blank_problem(claim.claim_type@, "claim type"@),
                first(
                    blank_problem(claim.status@, "claim status"@),
                    first(
                        confidence_problem(claim.confidence, "claim confidence"@),
                        first(
                            time_problem(
                                claim.valid_from,
                                claim.valid_until,
                                "claim validity"@,
                            ),
                            object_problem(
                                json_kind(claim.attributes_json@),
                                "claim attributes_json"@,
                            ),
                        ),
                    ),
                ),
            ),
        ),
    )
}

/// What is wrong with a relationship.
pub open spec fn relationship_problem(r: EntityRelationship) -> Option<ErrorView> {
    first(
        blank_problem(r.relationship_id@, "relationship id"@),
        first(
            blank_problem(r.source_entity_id@, "relationship source_entity_id"@),
            first(
                blank_problem(r.target_entity_id@, "relationship target_entity_id"@),
                first(
                    blank_problem(r.relation_type@, "relationship relation_type"@),
                    first(
                        blank_problem(r.status@, "relationship status"@),
                        first(
                            confidence_problem(r.confidence, "relationship confidence"@),
                            first(
                                time_problem(
                                    r.valid_from,
                                    r.valid_until,
                                    "relationship validity"@,
                                ),
                                object_problem(
                                    json_kind(r.attributes_json@),
                                    "relationship attributes_json"@,
                                ),
                            ),
                        ),
                    ),
                ),
            ),
        ),
    )
}

/// Whether a claim with the given identity is among the claims.
pub open spec fn claim_known(claims: Seq<ClaimRecord>, id: Seq<char>) -> bool {
    exists|i: int| 0 <= i < claims.len() && (#[trigger] claims[i]).claim_id@ == id
}

/// Whether a relationship with the given identity is among the relationships.
pub open spec fn relationship_known(all: Seq<EntityRelationship>, id: Seq<char>) -> bool {
    exists|i: int| 0 <= i < all.len() && (#[trigger] all[i]).relationship_id@ == id
}

/// What is wrong with the participation of an entity in a claim.
pub open spec fn claim_entity_problem(
    claims: Seq<ClaimRecord>,
    link: ClaimEntityLink,
) -> Option<ErrorView> {
    first(
        unknown_problem(
            claim_known(claims, link.claim_id@),
            link.claim_id@,
            "claim entity link"@,
            "claim_id"@,
        ),
        first(
            blank_problem(link.entity_id@, "claim entity link entity_id"@),
            first(
                blank_problem(link.role@, "claim entity link role"@),
                confidence_problem(link.confidence, "claim entity link confidence"@),
            ),
        ),
    )
}

/// What is wrong with the evidence for a claim.
pub open spec fn claim_evidence_problem(
    claims: Seq<ClaimRecord>,
    e: ClaimEvidence,
) -> Option<ErrorView> {
    first(
        unknown_problem(
            claim_known(claims, e.claim_id@),
            e.claim_id@,
            "claim evidence"@,
            "claim_id"@,
        ),
        first(
            confidence_problem(e.confidence, "claim evidence confidence"@),
            span_problem(e.span_start, e.span_end, "claim evidence span"@),
        ),
    )
}

/// What is wrong with the evidence for a relationship.
pub open spec fn relationship_evidence_problem(
    all: Seq<EntityRelationship>,
    e: RelationshipEvidence,
) -> Option<ErrorView> {
    first(
        unknown_problem(
            relationship_known(all, e.relationship_id@),
            e.relationship_id@,
            "relationship evidence"@,
            "relationship_id"@,
        ),
        first(
            confidence_problem(e.confidence, "relationship evidence confidence"@),
            span_problem(e.span_start, e.span_end, "relationship evidence span"@),
        ),
    )
}

/// The first problem among the items of a sequence.
pub open spec fn first_problem<A>(
    items: Seq<A>,
    problem: spec_fn(A) -> Option<ErrorView>,
) -> Option<ErrorView>
    decreases items.len(),
{
    if items.len() == 0 {
        None
    } else {
        first(first_problem(items.drop_last(), problem), problem(items.last()))
    }
}

/// The first problem of a batch: the run, the claims, the participations, the
/// evidence for claims, the relationships and the evidence for these are
/// looked at in this order.
pub open spec fn batch_problem(batch: ValidatedExtractionBatch) -> Option<ErrorView> {
    let claims = batch.claims@;
    let relationships = batch.relationships@;
    first(
        run_problem(batch.run),
        first(
            first_problem(claims, |c: ClaimRecord| claim_problem(c)),
            first(
                first_problem(
                    batch.claim_entities@,
                    |l: ClaimEntityLink| claim_entity_problem(claims, l),
                ),
                first(
                    first_problem(
                        batch.claim_evidence@,
                        |e: ClaimEvidence| claim_evidence_problem(claims, e),
                    ),
                    first(
                        first_problem(
                            relationships,
                            |r: EntityRelationship| relationship_problem(r),
                        ),
                        first_problem(
                            batch.relationship_evidence@,
                            |e: RelationshipEvidence|
                                relationship_evidence_problem(relationships, e),
                        ),
                    ),
                ),
            ),
        ),
    )
}

proof fn lemma_problem_stays<A>(
    items: Seq<A>,
    problem: spec_fn(A) -> Option<ErrorView>,
    n: int,
)
    requires
        0 <= n <= items.len(),
        first_problem(items.take(n), problem) is Some,
    ensures
        first_problem(items, problem) == first_problem(items.take(n), problem),
    decreases items.len() - n,
{
    if n < items.len() {
        assert(items.take(n + 1).drop_last() =~= items.take(n));
        lemma_problem_stays(items, problem, n + 1);
    } else {
        assert(items.take(n) =~= items);
    }
}

proof fn lemma_no_problem<A>(items: Seq<A>, problem: spec_fn(A) -> Option<ErrorView>, i: int)
    requires
        first_problem(items, problem) is None,
        0 <= i < items.len(),
    ensures
        problem(items[i]) is None,
    decreases items.len(),
{
    if i < items.len() - 1 {
        lemma_no_problem(items.drop_last(), problem, i);
    }
}

// ---------------------------------------------------------------------------
// Checks
// ---------------------------------------------------------------------------
fn invalid(field: &str, complaint: &str) -> (res: MenteError)
    ensures
        res@ == ErrorView::InvalidInput(field@ + complaint@),
{
    let mut message = copy_text(field);
    message.append(complaint);
    MenteError::InvalidInput(message)
}

/// The value must hold more than white space.
pub fn require_non_empty(value: &str, field: &str) -> (res: Result<(), MenteError>)
    ensures
        reports(res, blank_problem(value@, field@)),
{
    if trim(value).is_empty() {
        return Err(invalid(field, " must not be empty"));
    }
    Ok(())
}

/// The value must be known to the batch.
pub fn require_known(known: bool, value: &str, record: &str, field: &str) -> (res: Result<
    (),
    MenteError,
>)
    ensures
        reports(res, unknown_problem(known, value@, record@, field@)),
{
    if !known {
        let mut message = copy_text(record);
        message.append(" references unknown ");
        message.append(field);
        message.append(": ");
        message.append(value);
        return Err(MenteError::InvalidInput(message));
    }
    Ok(())
}

/// The value must be a number from 0 to 1.
pub fn validate_confidence(value: Single, field: &str) -> (res: Result<(), MenteError>)
    ensures
        reports(res, confidence_problem(value, field@)),
{
    if !value.is_unit() {
        return Err(invalid(field, " must be finite and between 0 and 1"));
    }
    Ok(())
}

/// A span with both ends must not end before it starts.
pub fn validate_span(start: Option<i64>, end: Option<i64>, field: &str) -> (res: Result<
    (),
    MenteError,
>)
    ensures
        reports(res, span_problem(start, end, field@)),
{
    if let (Some(from), Some(to)) = (start, end) {
        if from > to {
            return Err(invalid(field, " start must be <= end"));
        }
    }
    Ok(())
}

/// A validity with both ends must not end before it starts.
pub fn validate_time_bounds(
    valid_from: Option<Timestamp>,
    valid_until: Option<Timestamp>,
    field: &str,
) -> (res: Result<(), MenteError>)
    ensures
        reports(res, time_problem(valid_from, valid_until, field@)),
{
    if let (Some(from), Some(to)) = (valid_from, valid_until) {
        if from > to {
            return Err(invalid(field, " start must be <= end"));
        }
    }
    Ok(())
}

/// What a parse of a text gave, with its message by view.
pub open spec fn kind_view(kind: Result<JsonKind, String>) -> Result<JsonKind, Seq<char>> {
    match kind {
        Ok(k) => Ok(k),
        Err(message) => Err(message@),
    }
}

/// The outcome of a parse must be an object.
pub fn require_object(kind: Result<JsonKind, String>, field: &str) -> (res: Result<(), MenteError>)
    ensures
        reports(res, object_problem(kind_view(kind), field@)),
{
    match kind {
        Ok(JsonKind::Object) => Ok(()),
        Ok(_) => Err(invalid(field, " must be a JSON object")),
        Err(message) => {
            let mut text = copy_text(field);
            text.append(" must be valid JSON: ");
            text.append(message.as_str());
            Err(MenteError::Serialization(text))
        },
    }
}

/// The value must be the text of a JSON object.
pub fn validate_json_object(value: &str, field: &str) -> (res: Result<(), MenteError>)
    ensures
        reports(res, object_problem(json_kind(value@), field@)),
{
    require_object(parse_kind(value), field)
}

/// Checks the metadata of a run.
pub fn validate_run(run: &ExtractionRun) -> (res: Result<(), MenteError>)
    ensures
        reports(res, run_problem(*run)),
{
    require_non_empty(run.run_id.as_str(), "extraction run id")?;
    require_non_empty(run.extractor.as_str(), "extraction run extractor")?;
    require_non_empty(run.extractor_version.as_str(), "extraction run extractor_version")?;
    require_non_empty(run.status.as_str(), "extraction run status")?;
    validate_json_object(run.output_json.as_str(), "extraction run output_json")
}

/// Checks a claim.
pub fn validate_claim(claim: &ClaimRecord) -> (res: Result<(), MenteError>)
    ensures
        reports(res, claim_problem(*claim)),
{
    require_non_empty(claim.claim_id.as_str(), "claim id")?;
    require_non_empty(claim.claim_text.as_str(), "claim text")?;
    require_non_empty(claim.claim_type.as_str(), "claim type")?;
    require_non_empty(claim.status.as_str(), "claim status")?;
    validate_confidence(claim.confidence, "claim confidence")?;
    validate_time_bounds(claim.valid_from, claim.valid_until, "claim validity")?;
    validate_json_object(claim.attributes_json.as_str(), "claim attributes_json")
}

/// Checks a relationship.
pub fn validate_relationship(relationship: &EntityRelationship) -> (res: Result<(), MenteError>)
    ensures
        reports(res, relationship_problem(*relationship)),
{
    require_non_empty(relationship.relationship_id.as_str(), "relationship id")?;
    require_non_empty(relationship.source_entity_id.as_str(), "relationship source_entity_id")?;
    require_non_empty(relationship.target_entity_id.as_str(), "relationship target_entity_id")?;
    require_non_empty(relationship.relation_type.as_str(), "relationship relation_type")?;
    require_non_empty(relationship.status.as_str(), "relationship status")?;
    validate_confidence(relationship.confidence, "relationship confidence")?;
    validate_time_bounds(
        relationship.valid_from,
        relationship.valid_until,
        "relationship validity",
    )?;
    validate_json_object(relationship.attributes_json.as_str(), "relationship attributes_json")
}

fn knows_claim(claims: &Vec<ClaimRecord>, id: &str) -> (res: bool)
    ensures
        res == claim_known(claims@, id@),
{
    for i in 0..claims.len()
        invariant
            forall|j: int| 0 <= j < i ==> (#[trigger] claims@[j]).claim_id@ != id@,
    {
        if text_eq(claims[i].claim_id.as_str(), id) {
            assert(claims@[i as int].claim_id@ == id@);
            return true;
        }
    }
    false
}

fn knows_relationship(all: &Vec<EntityRelationship>, id: &str) -> (res: bool)
    ensures
        res == relationship_known(all@, id@),
{
    for i in 0..all.len()
        invariant
            forall|j: int| 0 <= j < i ==> (#[trigger] all@[j]).relationship_id@ != id@,
    {
        if text_eq(all[i].relationship_id.as_str(), id) {
            assert(all@[i as int].relationship_id@ == id@);
            return true;
        }
    }
    false
}

fn validate_claims(claims: &Vec<ClaimRecord>) -> (res: Result<(), MenteError>)
    ensures
        reports(res, first_problem(claims@, |c: ClaimRecord| claim_problem(c))),
{
    let ghost problem = |c: ClaimRecord| claim_problem(c);
    for i in 0..claims.len()
        invariant
            problem == (|c: ClaimRecord| claim_problem(c)),
            first_problem(claims@.take(i as int), problem) is None,
    {
        proof {
            assert(claims@.take(i + 1).drop_last() =~= claims@.take(i as int));
            if claim_problem(claims@[i as int]) is Some {
                lemma_problem_stays(claims@, problem, i + 1);
            }
        }
        validate_claim(&claims[i])?;
    }
    proof {
        assert(claims@.take(claims.len() as int) =~= claims@);
    }
    Ok(())
}

fn validate_claim_entities(claims: &Vec<ClaimRecord>, links: &Vec<ClaimEntityLink>) -> (res: Result<
    (),
    MenteError,
>)
    ensures
        reports(
            res,
            first_problem(links@, |l: ClaimEntityLink| claim_entity_problem(claims@, l)),
        ),
{
    let ghost problem = |l: ClaimEntityLink| claim_entity_problem(claims@, l);
    for i in 0..links.len()
        invariant
            problem == (|l: ClaimEntityLink| claim_entity_problem(claims@, l)),
            first_problem(links@.take(i as int), problem) is None,
    {
        let link = &links[i];
        proof {
            assert(links@.take(i + 1).drop_last() =~= links@.take(i as int));
            if claim_entity_problem(claims@, *link) is Some {
                lemma_problem_stays(links@, problem, i + 1);
            }
        }
        let known = knows_claim(claims, link.claim_id.as_str());
        require_known(known, link.claim_id.as_str(), "claim entity link", "claim_id")?;
        require_non_empty(link.entity_id.as_str(), "claim entity link entity_id")?;
        require_non_empty(link.role.as_str(), "claim entity link role")?;
        validate_confidence(link.confidence, "claim entity link confidence")?;
    }
    proof {
        assert(links@.take(links.len() as int) =~= links@);
    }
    Ok(())
}

fn validate_claim_evidence(claims: &Vec<ClaimRecord>, all: &Vec<ClaimEvidence>) -> (res: Result<
    (),
    MenteError,
>)
    ensures
        reports(res, first_problem(all@, |e: ClaimEvidence| claim_evidence_problem(claims@, e))),
{
    let ghost problem = |e: ClaimEvidence| claim_evidence_problem(claims@, e);
    for i in 0..all.len()
        invariant
            problem == (|e: ClaimEvidence| claim_evidence_problem(claims@, e)),
            first_problem(all@.take(i as int), problem) is None,
    {
        let evidence = &all[i];
        proof {
            assert(all@.take(i + 1).drop_last() =~= all@.take(i as int));
            if claim_evidence_problem(claims@, *evidence) is Some {
                lemma_problem_stays(all@, problem, i + 1);
            }
        }
        let known = knows_claim(claims, evidence.claim_id.as_str());
        require_known(known, evidence.claim_id.as_str(), "claim evidence", "claim_id")?;
        validate_confidence(evidence.confidence, "claim evidence confidence")?;
        validate_span(evidence.span_start, evidence.span_end, "claim evidence span")?;
    }
    proof {
        assert(all@.take(all.len() as int) =~= all@);
    }
    Ok(())
}

fn validate_relationships(all: &Vec<EntityRelationship>) -> (res: Result<(), MenteError>)
    ensures
        reports(res, first_problem(all@, |r: EntityRelationship| relationship_problem(r))),
{
    let ghost problem = |r: EntityRelationship| relationship_problem(r);
    for i in 0..all.len()
        invariant
            problem == (|r: EntityRelationship| relationship_problem(r)),
            first_problem(all@.take(i as int), problem) is None,
    {
        proof {
            assert(all@.take(i + 1).drop_last() =~= all@.take(i as int));
            if relationship_problem(all@[i as int]) is Some {
                lemma_problem_stays(all@, problem, i + 1);
            }
        }
        validate_relationship(&all[i])?;
    }
    proof {
        assert(all@.take(all.len() as int) =~= all@);
    }
    Ok(())
}

fn validate_relationship_evidence(
    relationships: &Vec<EntityRelationship>,
    all: &Vec<RelationshipEvidence>,
) -> (res: Result<(), MenteError>)
    ensures
        reports(
            res,
            first_problem(
                all@,
                |e: RelationshipEvidence| relationship_evidence_problem(relationships@, e),
            ),
        ),
{
    let ghost problem = |e: RelationshipEvidence|
        relationship_evidence_problem(relationships@, e);
    for i in 0..all.len()
        invariant
            problem == (|e: RelationshipEvidence|
                relationship_evidence_problem(relationships@, e)),
            first_problem(all@.take(i as int), problem) is None,
    {
        let evidence = &all[i];
        proof {
            assert(all@.take(i + 1).drop_last() =~= all@.take(i as int));
            if relationship_evidence_problem(relationships@, *evidence) is Some {
                lemma_problem_stays(all@, problem, i + 1);
            }
        }
        let known = knows_relationship(relationships, evidence.relationship_id.as_str());
        require_known(
            known,
            evidence.relationship_id.as_str(),
            "relationship evidence",
            "relationship_id",
        )?;
        validate_confidence(evidence.confidence, "relationship evidence confidence")?;
        validate_span(evidence.span_start, evidence.span_end, "relationship evidence span")?;
    }
    proof {
        assert(all@.take(all.len() as int) =~= all@);
    }
    Ok(())
}

/// Validates derived extraction artifacts before they are written.
pub fn validate_extraction_batch(batch: &ValidatedExtractionBatch) -> (res: Result<(), MenteError>)
    ensures
        reports(res, batch_problem(*batch)),
{
    validate_run(&batch.run)?;
    validate_claims(&batch.claims)?;
    validate_claim_entities(&batch.claims, &batch.claim_entities)?;
    validate_claim_evidence(&batch.claims, &batch.claim_evidence)?;
    validate_relationships(&batch.relationships)?;
    validate_relationship_evidence(&batch.relationships, &batch.relationship_evidence)
}

// ---------------------------------------------------------------------------
// Laws
// ---------------------------------------------------------------------------
/// In an accepted batch, every participation and every piece of evidence
/// refers to a claim or a relationship of the batch.
pub proof fn law_accepted_batch_is_closed(batch: ValidatedExtractionBatch)
    requires
        batch_problem(batch) is None,
    ensures
        forall|i: int|
            0 <= i < batch.claim_entities@.len() ==> claim_known(
                batch.claims@,
                (#[trigger] batch.claim_entities@[i]).claim_id@,
            ),
        forall|i: int|
            0 <= i < batch.claim_evidence@.len() ==> claim_known(
                batch.claims@,
                (#[trigger] batch.claim_evidence@[i]).claim_id@,
            ),
        forall|i: int|
            0 <= i < batch.relationship_evidence@.len() ==> relationship_known(
                batch.relationships@,
                (#[trigger] batch.relationship_evidence@[i]).relationship_id@,
            ),
{
    let claims = batch.claims@;
    let relationships = batch.relationships@;
    assert forall|i: int| 0 <= i < batch.claim_entities@.len() implies claim_known(
        claims,
        (#[trigger] batch.claim_entities@[i]).claim_id@,
    ) by {
        lemma_no_problem(
            batch.claim_entities@,
            |l: ClaimEntityLink| claim_entity_problem(claims, l),
            i,
        );
    }
    assert forall|i: int| 0 <= i < batch.claim_evidence@.len() implies claim_known(
        claims,
        (#[trigger] batch.claim_evidence@[i]).claim_id@,
    ) by {
        lemma_no_problem(
            batch.claim_evidence@,
            |e: ClaimEvidence| claim_evidence_problem(claims, e),
            i,
        );
    }
    assert forall|i: int| 0 <= i < batch.relationship_evidence@.len() implies relationship_known(
        relationships,
        (#[trigger] batch.relationship_evidence@[i]).relationship_id@,
    ) by {
        lemma_no_problem(
            batch.relationship_evidence@,
            |e: RelationshipEvidence| relationship_evidence_problem(relationships, e),
            i,
        );
    }
}

/// In an accepted batch, every confidence is a number from 0 to 1.
pub proof fn law_accepted_confidences(batch: ValidatedExtractionBatch)
    requires
        batch_problem(batch) is None,
    ensures
        forall|i: int|
            0 <= i < batch.claims@.len() ==> (#[trigger] batch.claims@[i]).confidence.in_unit(),
        forall|i: int|
            0 <= i < batch.claim_entities@.len() ==> (
            #[trigger] batch.claim_entities@[i]).confidence.in_unit(),
        forall|i: int|
            0 <= i < batch.claim_evidence@.len() ==> (
            #[trigger] batch.claim_evidence@[i]).confidence.in_unit(),
        forall|i: int|
            0 <= i < batch.relationships@.len() ==> (
            #[trigger] batch.relationships@[i]).confidence.in_unit(),
        forall|i: int|
            0 <= i < batch.relationship_evidence@.len() ==> (
            #[trigger] batch.relationship_evidence@[i]).confidence.in_unit(),
{
    let claims = batch.claims@;
    let relationships = batch.relationships@;
    assert forall|i: int| 0 <= i < claims.len() implies (
    #[trigger] claims[i]).confidence.in_unit() by {
        lemma_no_problem(claims, |c: ClaimRecord| claim_problem(c), i);
    }
    assert forall|i: int| 0 <= i < batch.claim_entities@.len() implies (
    #[trigger] batch.claim_entities@[i]).confidence.in_unit() by {
        lemma_no_problem(
            batch.claim_entities@,
            |l: ClaimEntityLink| claim_entity_problem(claims, l),
            i,
        );
    }
    assert forall|i: int| 0 <= i < batch.claim_evidence@.len() implies (
    #[trigger] batch.claim_evidence@[i]).confidence.in_unit() by {
        lemma_no_problem(
            batch.claim_evidence@,
            |e: ClaimEvidence| claim_evidence_problem(claims, e),
            i,
        );
    }
    assert forall|i: int| 0 <= i < relationships.len() implies (
    #[trigger] relationships[i]).confidence.in_unit() by {
        lemma_no_problem(relationships, |r: EntityRelationship| relationship_problem(r), i);
    }
    assert forall|i: int| 0 <= i < batch.relationship_evidence@.len() implies (
    #[trigger] batch.relationship_evidence@[i]).confidence.in_unit() by {
        lemma_no_problem(
            batch.relationship_evidence@,
            |e: RelationshipEvidence| relationship_evidence_problem(relationships, e),
            i,
        );
    }
}

} // verus!
