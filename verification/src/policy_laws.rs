//! What holds of every policy run.
use crate::entities::{ascending, law_ascending};
use crate::float::Single;
use crate::lifecycle::ArchivalDecision;
use crate::memory::{MemoryId, MemoryView, Timestamp};
use crate::order::views_of;
use crate::policies::{
    fact_entities, fact_memories, facts_answer, is_archived, law_ordered, nothing, ordered,
    reached_by, row_evidence, row_ids, scope_view, with_entity_closure, with_entity_closures,
    with_memory_closures, AffectedView, CorrectionRequest, EntityFactsView, ForgetMode,
    ForgetScope, MemoryFactsView, ScopeFacts,
};
use crate::policy_runs::{
    archive_changes, archived, candidate_ids, correction_affected, correction_plan, forget_plan,
    is_candidate, wants_candidates, ActionView, CandidateRow, CandidateView, CorrectionRows,
};
use crate::table_laws::strictly_ordered;
use crate::text::{law_text_order_total, text_before, views};
use vstd::prelude::*;

verus! {

/// Whether two lists of actions are on the same targets and say the same of
/// them.
pub open spec fn same_targets(a: Seq<ActionView>, b: Seq<ActionView>) -> bool {
    &&& a.len() == b.len()
    &&& forall|i: int|
        0 <= i < a.len() ==> {
            &&& (#[trigger] a[i]).target_type == b[i].target_type
            &&& a[i].target_id == b[i].target_id
            &&& a[i].before == b[i].before
            &&& a[i].after == b[i].after
        }
}

/// A preview of a correction shows what applying it affects, action by action,
/// and claims to have done nothing.
pub proof fn law_correction_preview(
    request: CorrectionRequest,
    rows: CorrectionRows,
    run_id: Seq<char>,
    now: Timestamp,
)
    ensures
        correction_plan(request, rows, false, run_id, now).affected == correction_plan(
            request,
            rows,
            true,
            run_id,
            now,
        ).affected,
        same_targets(
            correction_plan(request, rows, false, run_id, now).actions,
            correction_plan(request, rows, true, run_id, now).actions,
        ),
        correction_plan(request, rows, false, run_id, now).run.completed_at is None,
        forall|i: int|
            0 <= i < correction_plan(request, rows, false, run_id, now).actions.len() ==> (
            #[trigger] correction_plan(request, rows, false, run_id, now).actions[i]).status
                == "planned"@,
{
}

/// A preview of a forget policy shows what applying it affects, action by
/// action, and claims to have done nothing.
pub proof fn law_forget_preview(
    scope: (Seq<char>, Seq<char>, Seq<char>),
    facts: ScopeFacts,
    mode: ForgetMode,
    run_id: Seq<char>,
    now: Timestamp,
)
    ensures
        forget_plan(scope, facts, mode, false, run_id, now).affected == forget_plan(
            scope,
            facts,
            mode,
            true,
            run_id,
            now,
        ).affected,
        same_targets(
            forget_plan(scope, facts, mode, false, run_id, now).actions,
            forget_plan(scope, facts, mode, true, run_id, now).actions,
        ),
        forget_plan(scope, facts, mode, false, run_id, now).run.completed_at is None,
        forall|i: int|
            0 <= i < forget_plan(scope, facts, mode, false, run_id, now).actions.len() ==> (
            #[trigger] forget_plan(scope, facts, mode, false, run_id, now).actions[i]).status
                == "planned"@,
{
}

/// The plan of a correction has at least one action, and otherwise one for each
/// memory, claim and relationship that it affects.
pub proof fn law_correction_acts(
    request: CorrectionRequest,
    rows: CorrectionRows,
    apply: bool,
    run_id: Seq<char>,
    now: Timestamp,
)
    ensures
        ({
            let plan = correction_plan(request, rows, apply, run_id, now);
            let total = plan.affected.memory_ids.len() + plan.affected.claim_ids.len()
                + plan.affected.relationship_ids.len();
            plan.actions.len() == if total == 0 {
                1
            } else {
                total
            }
        }),
{
}

proof fn lemma_candidate_ids(rows: Seq<CandidateView>, new_memory_id: MemoryId, id: Seq<char>)
    ensures
        candidate_ids(rows, new_memory_id).contains(id) <==> exists|i: int|
            0 <= i < rows.len() && (#[trigger] rows[i]).id == id && is_candidate(
                rows[i],
                new_memory_id,
            ),
    decreases rows.len(),
{
    if rows.len() > 0 {
        let rest = rows.drop_last();
        let k = rows.len() - 1;
        lemma_candidate_ids(rest, new_memory_id, id);
        let before = candidate_ids(rest, new_memory_id);
        let all = candidate_ids(rows, new_memory_id);
        if before.contains(id) {
            let i = choose|i: int|
                0 <= i < rest.len() && (#[trigger] rest[i]).id == id && is_candidate(
                    rest[i],
                    new_memory_id,
                );
            assert(rows[i].id == id);
            let j = choose|j: int| 0 <= j < before.len() && before[j] == id;
            assert(all[j] == id);
        }
        if rows[k].id == id && is_candidate(rows[k], new_memory_id) {
            assert(all.last() == id);
        }
        if exists|i: int|
            0 <= i < rows.len() && (#[trigger] rows[i]).id == id && is_candidate(
                rows[i],
                new_memory_id,
            ) {
            let i = choose|i: int|
                0 <= i < rows.len() && (#[trigger] rows[i]).id == id && is_candidate(
                    rows[i],
                    new_memory_id,
                );
            if i < k {
                assert(rest[i].id == id);
            }
        }
        if all.contains(id) && !before.contains(id) {
            let j = choose|j: int| 0 <= j < all.len() && all[j] == id;
            if j < before.len() {
                assert(before[j] == id);
            }
            assert(rows[k].id == id && is_candidate(rows[k], new_memory_id));
        }
    }
}

/// Whether a row that can be corrected has an identity.
pub open spec fn names_candidate(
    rows: Seq<CandidateRow>,
    new_memory_id: MemoryId,
    id: Seq<char>,
) -> bool {
    exists|i: int|
        0 <= i < rows.len() && (#[trigger] rows[i])@.id == id && is_candidate(
            rows[i]@,
            new_memory_id,
        )
}

proof fn lemma_candidates(rows: Seq<CandidateRow>, new_memory_id: MemoryId, id: Seq<char>)
    ensures
        ordered(candidate_ids(views_of(rows), new_memory_id)).contains(id) <==> names_candidate(
            rows,
            new_memory_id,
            id,
        ),
{
    let v = views_of(rows);
    let ids = candidate_ids(v, new_memory_id);
    law_ordered(ids);
    lemma_candidate_ids(v, new_memory_id, id);
    if ids.contains(id) {
        let i = choose|i: int|
            0 <= i < v.len() && (#[trigger] v[i]).id == id && is_candidate(v[i], new_memory_id);
        assert(rows[i]@.id == id);
    }
    if names_candidate(rows, new_memory_id, id) {
        let i = choose|i: int|
            0 <= i < rows.len() && (#[trigger] rows[i])@.id == id && is_candidate(
                rows[i]@,
                new_memory_id,
            );
        assert(v[i].id == id);
    }
}

/// A correction that names nothing corrects exactly the active claims and
/// relationships of the entities of its memory for which that memory is no
/// evidence.
pub proof fn law_correction_candidates(
    request: CorrectionRequest,
    rows: CorrectionRows,
    id: Seq<char>,
)
    requires
        wants_candidates(request, rows),
    ensures
        correction_affected(request, rows).claim_ids.contains(id) <==> names_candidate(
            rows.candidate_claims@,
            request.new_memory_id,
            id,
        ),
        correction_affected(request, rows).relationship_ids.contains(id) <==> names_candidate(
            rows.candidate_relationships@,
            request.new_memory_id,
            id,
        ),
{
    lemma_candidates(rows.candidate_claims@, request.new_memory_id, id);
    lemma_candidates(rows.candidate_relationships@, request.new_memory_id, id);
}

/// What a forget plan affects is in strict order: each identity after the one
/// before, so nothing is listed twice.
pub proof fn law_forget_lists_once(
    scope: (Seq<char>, Seq<char>, Seq<char>),
    facts: ScopeFacts,
    mode: ForgetMode,
    apply: bool,
    run_id: Seq<char>,
    now: Timestamp,
)
    ensures
        ({
            let affected = forget_plan(scope, facts, mode, apply, run_id, now).affected;
            &&& forall|i: int, j: int|
                0 <= i < j < affected.memory_ids.len() ==> (
                #[trigger] affected.memory_ids[i]).value < (#[trigger] affected.memory_ids[j]).value
            &&& strictly_ordered(affected.claim_ids)
            &&& strictly_ordered(affected.relationship_ids)
            &&& strictly_ordered(affected.entity_ids)
            &&& affected.memory_ids.no_duplicates()
            &&& affected.claim_ids.no_duplicates()
            &&& affected.relationship_ids.no_duplicates()
            &&& affected.entity_ids.no_duplicates()
        }),
{
    let reached = reached_by(facts);
    law_ascending(reached.memory_ids);
    let a = ascending(reached.memory_ids);
    assert(a.no_duplicates()) by {
        assert forall|i: int, j: int| 0 <= i < a.len() && 0 <= j < a.len() && i != j implies a[i]
            != a[j] by {
            if i < j {
                assert(a[i].value < a[j].value);
            } else {
                assert(a[j].value < a[i].value);
            }
        }
    }
    lemma_ordered_once(reached.claim_ids);
    lemma_ordered_once(reached.relationship_ids);
    lemma_ordered_once(reached.entity_ids);
}

proof fn lemma_ordered_once(values: Seq<Seq<char>>)
    ensures
        strictly_ordered(ordered(values)),
        ordered(values).no_duplicates(),
{
    let a = ordered(values);
    law_ordered(values);
    assert forall|i: int, j: int| 0 <= i < a.len() && 0 <= j < a.len() && i != j implies a[i]
        != a[j] by {
        if i < j {
            law_text_order_total(a[i], a[j]);
            assert(text_before(a[i], a[j]));
        } else {
            law_text_order_total(a[j], a[i]);
            assert(text_before(a[j], a[i]));
        }
    }
}

proof fn lemma_memory_closures(
    a: AffectedView,
    all: Seq<MemoryFactsView>,
    i: int,
)
    requires
        0 <= i < all.len(),
    ensures
        with_memory_closures(a, all).memory_ids.contains(all[i].memory_id),
        forall|c: Seq<char>|
            all[i].claim_ids.contains(c) ==> #[trigger] with_memory_closures(
                a,
                all,
            ).claim_ids.contains(c),
        forall|r: Seq<char>|
            all[i].relationship_ids.contains(r)
                ==> #[trigger] with_memory_closures(
                a,
                all,
            ).relationship_ids.contains(r),
    decreases all.len(),
{
    let rest = all.drop_last();
    let before = with_memory_closures(a, rest);
    let after = with_memory_closures(a, all);
    if i < rest.len() {
        lemma_memory_closures(a, rest, i);
        assert(rest[i] == all[i]);
        let j = choose|j: int|
            0 <= j < before.memory_ids.len() && before.memory_ids[j] == all[i].memory_id;
        assert(after.memory_ids[j] == all[i].memory_id);
        assert forall|c: Seq<char>| all[i].claim_ids.contains(c) implies
            #[trigger] after.claim_ids.contains(c) by {
            assert(before.claim_ids.contains(c));
            let k = choose|k: int| 0 <= k < before.claim_ids.len() && before.claim_ids[k] == c;
            assert(after.claim_ids[k] == c);
        }
        assert forall|r: Seq<char>| all[i].relationship_ids.contains(r) implies
            #[trigger] after.relationship_ids.contains(r) by {
            assert(before.relationship_ids.contains(r));
            let k = choose|k: int|
                0 <= k < before.relationship_ids.len() && before.relationship_ids[k] == r;
            assert(after.relationship_ids[k] == r);
        }
    } else {
        assert(after.memory_ids.last() == all[i].memory_id);
        assert forall|c: Seq<char>| all[i].claim_ids.contains(c) implies
            #[trigger] after.claim_ids.contains(c) by {
            let k = choose|k: int| 0 <= k < all[i].claim_ids.len() && all[i].claim_ids[k] == c;
            assert(after.claim_ids[before.claim_ids.len() + k] == c);
        }
        assert forall|r: Seq<char>| all[i].relationship_ids.contains(r) implies
            #[trigger] after.relationship_ids.contains(r) by {
            let k = choose|k: int|
                0 <= k < all[i].relationship_ids.len() && all[i].relationship_ids[k] == r;
            assert(after.relationship_ids[before.relationship_ids.len() + k] == r);
        }
    }
}

/// Forgetting memories reaches each of them, every claim and every relationship
/// that it is evidence for.
pub proof fn law_forget_reaches_memories(
    scope: (Seq<char>, Seq<char>, Seq<char>),
    facts: ScopeFacts,
    mode: ForgetMode,
    apply: bool,
    run_id: Seq<char>,
    now: Timestamp,
    i: int,
)
    requires
        facts is Memories,
        0 <= i < facts->Memories_0@.len(),
    ensures
        ({
            let affected = forget_plan(scope, facts, mode, apply, run_id, now).affected;
            let f = facts->Memories_0@[i];
            &&& affected.memory_ids.contains(f.memory_id)
            &&& forall|c: Seq<char>|
                views(f.claim_ids@).contains(c) ==> #[trigger] affected.claim_ids.contains(c)
            &&& forall|r: Seq<char>|
                views(f.relationship_ids@).contains(r)
                    ==> #[trigger] affected.relationship_ids.contains(r)
        }),
{
    let all = views_of(facts->Memories_0@);
    let reached = reached_by(facts);
    assert(all[i] == facts->Memories_0@[i]@);
    lemma_memory_closures(nothing(), all, i);
    law_ascending(reached.memory_ids);
    law_ordered(reached.claim_ids);
    law_ordered(reached.relationship_ids);
    let affected = forget_plan(scope, facts, mode, apply, run_id, now).affected;
    assert(affected.memory_ids == ascending(reached.memory_ids));
    assert(affected.claim_ids == ordered(reached.claim_ids));
    assert(affected.relationship_ids == ordered(reached.relationship_ids));
}

/// Whether an earlier result is part of a later one.
spec fn grows(a: AffectedView, b: AffectedView) -> bool {
    &&& forall|x: MemoryId| a.memory_ids.contains(x) ==> #[trigger] b.memory_ids.contains(x)
    &&& forall|x: Seq<char>| a.claim_ids.contains(x) ==> #[trigger] b.claim_ids.contains(x)
    &&& forall|x: Seq<char>|
        a.relationship_ids.contains(x) ==> #[trigger] b.relationship_ids.contains(x)
    &&& forall|x: Seq<char>| a.entity_ids.contains(x) ==> #[trigger] b.entity_ids.contains(x)
}

proof fn lemma_prefix_grows<A>(a: Seq<A>, b: Seq<A>)
    ensures
        forall|x: A| a.contains(x) ==> #[trigger] (a + b).contains(x),
        forall|x: A| b.contains(x) ==> #[trigger] (a + b).contains(x),
{
    assert forall|x: A| a.contains(x) implies #[trigger] (a + b).contains(x) by {
        let i = choose|i: int| 0 <= i < a.len() && a[i] == x;
        assert((a + b)[i] == x);
    }
    assert forall|x: A| b.contains(x) implies #[trigger] (a + b).contains(x) by {
        let i = choose|i: int| 0 <= i < b.len() && b[i] == x;
        assert((a + b)[a.len() + i] == x);
    }
}

proof fn lemma_memory_closures_grow(a: AffectedView, all: Seq<MemoryFactsView>)
    ensures
        grows(a, with_memory_closures(a, all)),
        with_memory_closures(a, all).entity_ids == a.entity_ids,
    decreases all.len(),
{
    if all.len() > 0 {
        let before = with_memory_closures(a, all.drop_last());
        lemma_memory_closures_grow(a, all.drop_last());
        let f = all.last();
        lemma_prefix_grows(before.memory_ids, seq![f.memory_id]);
        assert(before.memory_ids + seq![f.memory_id] =~= before.memory_ids.push(f.memory_id));
        lemma_prefix_grows(before.claim_ids, f.claim_ids);
        lemma_prefix_grows(before.relationship_ids, f.relationship_ids);
    }
}

/// Whether all that is known of an entity is affected: its memories with what
/// hangs on them, its claims and relationships with their evidence.
pub open spec fn entity_reached(a: AffectedView, e: EntityFactsView) -> bool {
    &&& a.entity_ids.contains(e.entity_id)
    &&& forall|i: int|
        0 <= i < e.memories.len() ==> a.memory_ids.contains((#[trigger] e.memories[i]).memory_id)
    &&& forall|i: int, c: Seq<char>|
        0 <= i < e.memories.len() && (#[trigger] e.memories[i]).claim_ids.contains(c)
            ==> #[trigger] a.claim_ids.contains(c)
    &&& forall|i: int, r: Seq<char>|
        0 <= i < e.memories.len() && (#[trigger] e.memories[i]).relationship_ids.contains(r)
            ==> #[trigger] a.relationship_ids.contains(r)
    &&& forall|i: int|
        0 <= i < e.claims.len() ==> a.claim_ids.contains((#[trigger] e.claims[i]).0)
    &&& forall|i: int|
        0 <= i < e.relationships.len() ==> a.relationship_ids.contains(
            (#[trigger] e.relationships[i]).0,
        )
    &&& forall|i: int, m: MemoryId|
        0 <= i < e.claims.len() && (#[trigger] e.claims[i]).1.contains(m)
            ==> #[trigger] a.memory_ids.contains(m)
    &&& forall|i: int, m: MemoryId|
        0 <= i < e.relationships.len() && (#[trigger] e.relationships[i]).1.contains(m)
            ==> #[trigger] a.memory_ids.contains(m)
}

proof fn lemma_row_evidence(rows: Seq<(Seq<char>, Seq<MemoryId>)>, i: int, m: MemoryId)
    requires
        0 <= i < rows.len(),
        rows[i].1.contains(m),
    ensures
        row_evidence(rows).contains(m),
    decreases rows.len(),
{
    let rest = rows.drop_last();
    lemma_prefix_grows(row_evidence(rest), rows.last().1);
    if i < rest.len() {
        lemma_row_evidence(rest, i, m);
    }
}

proof fn lemma_entity_closure(a: AffectedView, e: EntityFactsView)
    ensures
        grows(a, with_entity_closure(a, e)),
        entity_reached(with_entity_closure(a, e), e),
{
    let named = AffectedView { entity_ids: a.entity_ids.push(e.entity_id), ..a };
    let reached = with_memory_closures(named, e.memories);
    let after = with_entity_closure(a, e);
    let ce = row_evidence(e.claims);
    let re = row_evidence(e.relationships);
    lemma_memory_closures_grow(named, e.memories);
    lemma_prefix_grows(a.entity_ids, seq![e.entity_id]);
    assert(a.entity_ids + seq![e.entity_id] =~= named.entity_ids);
    assert(named.entity_ids[a.entity_ids.len() as int] == e.entity_id);
    lemma_prefix_grows(reached.memory_ids, ce);
    lemma_prefix_grows(reached.memory_ids + ce, re);
    lemma_prefix_grows(reached.claim_ids, row_ids(e.claims));
    lemma_prefix_grows(reached.relationship_ids, row_ids(e.relationships));
    assert forall|i: int| 0 <= i < e.memories.len() implies after.memory_ids.contains(
        (#[trigger] e.memories[i]).memory_id,
    ) by {
        lemma_memory_closures(named, e.memories, i);
        assert((reached.memory_ids + ce).contains(e.memories[i].memory_id));
    }
    assert forall|i: int, c: Seq<char>|
        0 <= i < e.memories.len() && (#[trigger] e.memories[i]).claim_ids.contains(c) implies
        #[trigger] after.claim_ids.contains(c) by {
        lemma_memory_closures(named, e.memories, i);
        assert(reached.claim_ids.contains(c));
    }
    assert forall|i: int, r: Seq<char>|
        0 <= i < e.memories.len() && (#[trigger] e.memories[i]).relationship_ids.contains(
            r,
        ) implies #[trigger] after.relationship_ids.contains(r) by {
        lemma_memory_closures(named, e.memories, i);
        assert(reached.relationship_ids.contains(r));
    }
    assert forall|i: int| 0 <= i < e.claims.len() implies after.claim_ids.contains(
        (#[trigger] e.claims[i]).0,
    ) by {
        assert(row_ids(e.claims)[i] == e.claims[i].0);
    }
    assert forall|i: int| 0 <= i < e.relationships.len() implies after.relationship_ids.contains(
        (#[trigger] e.relationships[i]).0,
    ) by {
        assert(row_ids(e.relationships)[i] == e.relationships[i].0);
    }
    assert forall|i: int, m: MemoryId|
        0 <= i < e.claims.len() && (#[trigger] e.claims[i]).1.contains(m) implies
        #[trigger] after.memory_ids.contains(m) by {
        lemma_row_evidence(e.claims, i, m);
        assert((reached.memory_ids + ce).contains(m));
    }
    assert forall|i: int, m: MemoryId|
        0 <= i < e.relationships.len() && (#[trigger] e.relationships[i]).1.contains(m) implies
        #[trigger] after.memory_ids.contains(m) by {
        lemma_row_evidence(e.relationships, i, m);
    }
    assert forall|x: MemoryId| a.memory_ids.contains(x) implies
        #[trigger] after.memory_ids.contains(x) by {
        assert(reached.memory_ids.contains(x));
        assert((reached.memory_ids + ce).contains(x));
    }
    assert forall|x: Seq<char>| a.claim_ids.contains(x) implies
        #[trigger] after.claim_ids.contains(x) by {
        assert(reached.claim_ids.contains(x));
    }
    assert forall|x: Seq<char>| a.relationship_ids.contains(x) implies
        #[trigger] after.relationship_ids.contains(x) by {
        assert(reached.relationship_ids.contains(x));
    }
}

proof fn lemma_entity_closures(
    a: AffectedView,
    all: Seq<EntityFactsView>,
    i: int,
)
    requires
        0 <= i < all.len(),
    ensures
        entity_reached(with_entity_closures(a, all), all[i]),
    decreases all.len(),
{
    let rest = all.drop_last();
    let before = with_entity_closures(a, rest);
    lemma_entity_closure(before, all.last());
    if i < rest.len() {
        lemma_entity_closures(a, rest, i);
        let after = with_entity_closures(a, all);
        let e = all[i];
        assert(rest[i] == e);
        assert(after.entity_ids.contains(e.entity_id));
        assert forall|k: int, c: Seq<char>|
            0 <= k < e.memories.len() && (#[trigger] e.memories[k]).claim_ids.contains(c) implies
            #[trigger] after.claim_ids.contains(c) by {
            assert(before.claim_ids.contains(c));
        }
        assert forall|k: int, r: Seq<char>|
            0 <= k < e.memories.len() && (#[trigger] e.memories[k]).relationship_ids.contains(
                r,
            ) implies #[trigger] after.relationship_ids.contains(r) by {
            assert(before.relationship_ids.contains(r));
        }
        assert forall|k: int, m: MemoryId|
            0 <= k < e.claims.len() && (#[trigger] e.claims[k]).1.contains(m) implies
            #[trigger] after.memory_ids.contains(m) by {
            assert(before.memory_ids.contains(m));
        }
        assert forall|k: int, m: MemoryId|
            0 <= k < e.relationships.len() && (#[trigger] e.relationships[k]).1.contains(m) implies
            #[trigger] after.memory_ids.contains(m) by {
            assert(before.memory_ids.contains(m));
        }
    }
}

/// Forgetting entities reaches each of them, its memories with the claims and
/// relationships that hang on them, its own claims and relationships and the
/// evidence for them.
pub proof fn law_forget_reaches_entities(
    scope: (Seq<char>, Seq<char>, Seq<char>),
    facts: ScopeFacts,
    mode: ForgetMode,
    apply: bool,
    run_id: Seq<char>,
    now: Timestamp,
    i: int,
)
    requires
        facts is Entities,
        0 <= i < facts->Entities_0@.len(),
    ensures
        entity_reached(
            forget_plan(scope, facts, mode, apply, run_id, now).affected,
            facts->Entities_0@[i]@,
        ),
{
    let all = views_of(facts->Entities_0@);
    let reached = reached_by(facts);
    assert(all[i] == facts->Entities_0@[i]@);
    lemma_entity_closures(nothing(), all, i);
    law_ascending(reached.memory_ids);
    law_ordered(reached.claim_ids);
    law_ordered(reached.relationship_ids);
    law_ordered(reached.entity_ids);
    let affected = forget_plan(scope, facts, mode, apply, run_id, now).affected;
    let e = all[i];
    assert(affected.memory_ids == ascending(reached.memory_ids));
    assert(affected.claim_ids == ordered(reached.claim_ids));
    assert(affected.relationship_ids == ordered(reached.relationship_ids));
    assert(affected.entity_ids == ordered(reached.entity_ids));
    assert forall|k: int, c: Seq<char>|
        0 <= k < e.memories.len() && (#[trigger] e.memories[k]).claim_ids.contains(c) implies
        #[trigger] affected.claim_ids.contains(c) by {
        assert(reached.claim_ids.contains(c));
    }
    assert forall|k: int, r: Seq<char>|
        0 <= k < e.memories.len() && (#[trigger] e.memories[k]).relationship_ids.contains(
            r,
        ) implies #[trigger] affected.relationship_ids.contains(r) by {
        assert(reached.relationship_ids.contains(r));
    }
    assert forall|k: int, m: MemoryId|
        0 <= k < e.claims.len() && (#[trigger] e.claims[k]).1.contains(m) implies
        #[trigger] affected.memory_ids.contains(m) by {
        assert(reached.memory_ids.contains(m));
    }
    assert forall|k: int, m: MemoryId|
        0 <= k < e.relationships.len() && (#[trigger] e.relationships[k]).1.contains(m) implies
        #[trigger] affected.memory_ids.contains(m) by {
        assert(reached.memory_ids.contains(m));
    }
}

proof fn lemma_entity_closures_named(a: AffectedView, all: Seq<EntityFactsView>)
    ensures
        with_entity_closures(a, all).entity_ids == a.entity_ids + fact_entities(all),
    decreases all.len(),
{
    if all.len() > 0 {
        let rest = all.drop_last();
        let e = all.last();
        lemma_entity_closures_named(a, rest);
        let before = with_entity_closures(a, rest);
        let named = AffectedView { entity_ids: before.entity_ids.push(e.entity_id), ..before };
        lemma_memory_closures_grow(named, e.memories);
        assert(fact_entities(all) =~= fact_entities(rest).push(e.entity_id));
    }
    assert(with_entity_closures(a, all).entity_ids =~= a.entity_ids + fact_entities(all));
}

/// A forget plan reaches what its scope names or what is found for it: the one
/// memory of a memory scope, every memory that is found for a conversation or a
/// tag, and no entity; of an entity scope exactly the one entity, of an alias
/// exactly the entities that are found for it.
pub proof fn law_forget_follows_scope(
    scope: ForgetScope,
    memories: Seq<MemoryId>,
    entities: Seq<Seq<char>>,
    facts: ScopeFacts,
    mode: ForgetMode,
    apply: bool,
    run_id: Seq<char>,
    now: Timestamp,
)
    requires
        facts_answer(scope, memories, entities, facts),
    ensures
        ({
            let affected = forget_plan(
                scope_view(scope),
                facts,
                mode,
                apply,
                run_id,
                now,
            ).affected;
            match scope {
                ForgetScope::Memory(id) => affected.memory_ids == seq![id]
                    && affected.entity_ids.len() == 0,
                ForgetScope::Conversation(_) => affected.entity_ids.len() == 0 && forall|
                    id: MemoryId,
                | #[trigger]
                    affected.memory_ids.contains(id) <==> memories.contains(id),
                ForgetScope::Tag(_) => affected.entity_ids.len() == 0 && forall|id: MemoryId|
                    #[trigger]
                    affected.memory_ids.contains(id) <==> memories.contains(id),
                ForgetScope::Entity(id) => forall|e: Seq<char>| #[trigger]
                    affected.entity_ids.contains(e) <==> e == id@,
                ForgetScope::Alias(_) => forall|e: Seq<char>| #[trigger]
                    affected.entity_ids.contains(e) <==> entities.contains(e),
            }
        }),
{
    let reached = reached_by(facts);
    let affected = forget_plan(scope_view(scope), facts, mode, apply, run_id, now).affected;
    law_ascending(reached.memory_ids);
    law_ordered(reached.entity_ids);
    assert(affected.memory_ids == ascending(reached.memory_ids));
    assert(affected.entity_ids == ordered(reached.entity_ids));
    match facts {
        ScopeFacts::Memories(all) => {
            let v = views_of(all@);
            lemma_memory_closures_grow(nothing(), v);
            lemma_memory_closures_ids(nothing(), v);
            assert(reached.memory_ids =~= fact_memories(v));
            if affected.entity_ids.len() > 0 {
                assert(affected.entity_ids.contains(affected.entity_ids[0]));
                assert(reached.entity_ids.contains(affected.entity_ids[0]));
            }
            if let ForgetScope::Memory(id) = scope {
                let ids = affected.memory_ids;
                assert(seq![id][0] == id);
                assert(ids.contains(id));
                assert forall|i: int| 0 <= i < ids.len() implies ids[i] == id by {
                    assert(ids.contains(ids[i]));
                    assert(seq![id].contains(ids[i]));
                }
                if ids.len() > 1 {
                    assert(ids[0].value < ids[1].value);
                }
                assert(ids =~= seq![id]);
            }
        },
        ScopeFacts::Entities(all) => {
            let v = views_of(all@);
            lemma_entity_closures_named(nothing(), v);
            assert(reached.entity_ids =~= fact_entities(v));
            if let ForgetScope::Entity(id) = scope {
                assert(seq![id@][0] == id@);
            }
        },
    }
}

proof fn lemma_memory_closures_ids(a: AffectedView, all: Seq<MemoryFactsView>)
    ensures
        with_memory_closures(a, all).memory_ids == a.memory_ids + fact_memories(all),
    decreases all.len(),
{
    if all.len() > 0 {
        let rest = all.drop_last();
        lemma_memory_closures_ids(a, rest);
        assert(fact_memories(all) =~= fact_memories(rest).push(all.last().memory_id));
    }
    assert(with_memory_closures(a, all).memory_ids =~= a.memory_ids + fact_memories(all));
}

/// Whether a change archives one of some memories, which was not archived.
pub open spec fn archives_one(memories: Seq<MemoryView>, stored: MemoryView) -> bool {
    exists|k: int|
        0 <= k < memories.len() && !is_archived(#[trigger] memories[k]) && stored == archived(
            memories[k],
        )
}

/// Archiving is done once: what the policy stores is archived, with a salience
/// of at most 0.02, and each change is of a memory that was not archived. So
/// where all are archived, nothing changes.
pub proof fn law_archive_once(
    run_id: Seq<char>,
    memories: Seq<MemoryView>,
    decisions: Seq<ArchivalDecision>,
    now: Timestamp,
)
    ensures
        forall|i: int|
            0 <= i < archive_changes(run_id, memories, decisions, now).len() ==> {
                let stored = (#[trigger] archive_changes(
                    run_id,
                    memories,
                    decisions,
                    now,
                )[i]).memory;
                &&& is_archived(stored)
                &&& !(Single { bits: 0x3ca3_d70a }).less(stored.salience)
                &&& archives_one(memories, stored)
            },
        (forall|i: int| 0 <= i < memories.len() ==> is_archived(#[trigger] memories[i]))
            ==> archive_changes(run_id, memories, decisions, now).len() == 0,
    decreases memories.len(),
{
    if memories.len() > 0 {
        let k = memories.len() - 1;
        let rest = memories.drop_last();
        law_archive_once(run_id, rest, decisions, now);
        let m = memories[k];
        let changes = archive_changes(run_id, memories, decisions, now);
        let before = archive_changes(run_id, rest, decisions, now);
        assert(archived(m).tags.last() == "archived"@);
        assert forall|i: int| 0 <= i < changes.len() implies archives_one(
            memories,
            (#[trigger] changes[i]).memory,
        ) by {
            if i < before.len() {
                assert(changes[i] == before[i]);
                let n = choose|n: int|
                    0 <= n < rest.len() && !is_archived(#[trigger] rest[n]) && before[i].memory
                        == archived(rest[n]);
                assert(memories[n] == rest[n]);
            } else {
                assert(changes[i].memory == archived(memories[k]));
            }
        }
        if forall|i: int| 0 <= i < memories.len() ==> is_archived(#[trigger] memories[i]) {
            assert forall|i: int| 0 <= i < rest.len() implies is_archived(#[trigger] rest[i]) by {
                assert(rest[i] == memories[i]);
            }
            assert(is_archived(memories[k]));
        }
    }
}

} // verus!
