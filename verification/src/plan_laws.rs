//! What corrections and forget policies reach and leave behind.
use crate::memory::{EdgeType, Timestamp};
use crate::order::views_of;
use crate::policies::{law_ordered, CorrectionRequest, ForgetMode, ScopeFacts};
use crate::policy_runs::{
    active_ids, correction_affected, correction_edges, correction_events, correction_plan,
    forget_events, forget_plan, invalidations, is_candidate, named_claims, named_relationships,
    wants_candidates, CandidateView, CorrectionRows,
};
use crate::text::{opt_view, views};
use vstd::prelude::*;

verus! {

/// Whether some rows hold an active one with an identity.
pub open spec fn has_active(rows: Seq<(Seq<char>, Seq<char>)>, id: Seq<char>) -> bool {
    exists|i: int| 0 <= i < rows.len() && (#[trigger] rows[i]).0 == id && rows[i].1 == "active"@
}

proof fn lemma_active(rows: Seq<(Seq<char>, Seq<char>)>, id: Seq<char>)
    ensures
        active_ids(rows).contains(id) <==> has_active(rows, id),
    decreases rows.len(),
{
    if rows.len() > 0 {
        let head = rows.drop_last();
        let rest = active_ids(head);
        let all = active_ids(rows);
        lemma_active(head, id);
        if all.contains(id) {
            let i = choose|i: int| 0 <= i < all.len() && all[i] == id;
            if i < rest.len() {
                assert(rest[i] == id);
                assert(rest.contains(id));
                let k = choose|k: int|
                    0 <= k < head.len() && (#[trigger] head[k]).0 == id && head[k].1 == "active"@;
                assert(rows[k] == head[k]);
            } else {
                assert(rows[rows.len() - 1].0 == id);
            }
        }
        if has_active(rows, id) {
            let k = choose|k: int|
                0 <= k < rows.len() && (#[trigger] rows[k]).0 == id && rows[k].1 == "active"@;
            if k < head.len() {
                assert(head[k] == rows[k]);
                assert(rest.contains(id));
                let i = choose|i: int| 0 <= i < rest.len() && rest[i] == id;
                assert(all[i] == id);
            } else {
                assert(all[rest.len() as int] == id);
            }
        }
    }
}

proof fn lemma_named(a: Seq<Seq<char>>, b: Seq<Seq<char>>, id: Seq<char>)
    ensures
        (a + b).contains(id) <==> a.contains(id) || b.contains(id),
{
    let all = a + b;
    if a.contains(id) {
        let i = choose|i: int| 0 <= i < a.len() && a[i] == id;
        assert(all[i] == id);
    }
    if b.contains(id) {
        let i = choose|i: int| 0 <= i < b.len() && b[i] == id;
        assert(all[a.len() + i] == id);
    }
    if all.contains(id) {
        let i = choose|i: int| 0 <= i < all.len() && all[i] == id;
        if i < a.len() {
            assert(a[i] == id);
        } else {
            assert(b[i - a.len()] == id);
        }
    }
}

/// A correction affects the old memory where one is given, and no entity. Where the
/// request names a claim or a relationship, or one on the old memory is active, it
/// affects exactly those that are named or active there.
pub proof fn law_correction_reaches(
    request: CorrectionRequest,
    rows: CorrectionRows,
    apply: bool,
    run_id: Seq<char>,
    now: Timestamp,
    id: Seq<char>,
)
    ensures
        ({
            let affected = correction_plan(request, rows, apply, run_id, now).affected;
            let old_claim = request.old_memory_id is Some && has_active(
                views_of(rows.old_claims@),
                id,
            );
            let old_relationship = request.old_memory_id is Some && has_active(
                views_of(rows.old_relationships@),
                id,
            );
            let named_claim = views(request.claim_ids@).contains(id);
            let named_relationship = views(request.relationship_ids@).contains(id);
            &&& request.old_memory_id is Some ==> affected.memory_ids
                == seq![request.old_memory_id->0]
            &&& request.old_memory_id is None ==> affected.memory_ids.len() == 0
            &&& affected.entity_ids.len() == 0
            &&& named_claim || old_claim ==> affected.claim_ids.contains(id)
            &&& named_relationship || old_relationship ==> affected.relationship_ids.contains(id)
            &&& !wants_candidates(request, rows) && affected.claim_ids.contains(id) ==> named_claim
                || old_claim
            &&& !wants_candidates(request, rows) && affected.relationship_ids.contains(id)
                ==> named_relationship || old_relationship
            &&& named_claim || old_claim || named_relationship || old_relationship
                ==> !wants_candidates(request, rows)
        }),
{
    let old_claims = if request.old_memory_id is Some {
        active_ids(views_of(rows.old_claims@))
    } else {
        Seq::empty()
    };
    let old_relationships = if request.old_memory_id is Some {
        active_ids(views_of(rows.old_relationships@))
    } else {
        Seq::empty()
    };
    lemma_active(views_of(rows.old_claims@), id);
    lemma_active(views_of(rows.old_relationships@), id);
    lemma_named(views(request.claim_ids@), old_claims, id);
    lemma_named(views(request.relationship_ids@), old_relationships, id);
    law_ordered(named_claims(request, rows));
    law_ordered(named_relationships(request, rows));
}

/// A correction looks for candidates only where nothing is named and nothing on the
/// old memory is active. An active row is a candidate unless the new memory is
/// evidence for it; a row that is not active never is.
pub proof fn law_correction_looks(
    request: CorrectionRequest,
    rows: CorrectionRows,
    row: CandidateView,
)
    ensures
        request.claim_ids@.len() == 0 && request.relationship_ids@.len() == 0
            && request.old_memory_id is None ==> wants_candidates(request, rows),
        request.claim_ids@.len() > 0 || request.relationship_ids@.len() > 0 ==> !wants_candidates(
            request,
            rows,
        ),
        row.status == "active"@ && !row.evidence.contains(request.new_memory_id) ==> is_candidate(
            row,
            request.new_memory_id,
        ),
        row.status != "active"@ ==> !is_candidate(row, request.new_memory_id),
        row.evidence.contains(request.new_memory_id) ==> !is_candidate(row, request.new_memory_id),
{
    assert(views(request.claim_ids@).len() == request.claim_ids@.len());
    assert(views(request.relationship_ids@).len() == request.relationship_ids@.len());
}

/// What a correction leaves behind: the new memory supersedes the old one, with the
/// reason as the label; each affected memory ceases to hold now, and has an event;
/// the new memory has one too.
pub proof fn law_correction_leaves(
    request: CorrectionRequest,
    rows: CorrectionRows,
    run_id: Seq<char>,
    now: Timestamp,
)
    ensures
        request.old_memory_id is None ==> correction_edges(request, now).len() == 0,
        request.old_memory_id matches Some(old_id) ==> {
            let edges = correction_edges(request, now);
            &&& edges.len() == 1
            &&& edges[0].source == request.new_memory_id
            &&& edges[0].target == old_id
            &&& edges[0].edge_type == EdgeType::Supersedes
            &&& edges[0].weight.bits == 0x3f80_0000
            &&& edges[0].created_at == now
            &&& edges[0].valid_until is None
            &&& edges[0].label == opt_view(request.reason)
        },
        ({
            let affected = correction_affected(request, rows);
            let events = correction_events(run_id, affected, request.new_memory_id, now);
            let ends = invalidations(affected.memory_ids, now);
            &&& ends.len() == affected.memory_ids.len()
            &&& forall|i: int|
                0 <= i < ends.len() ==> (#[trigger] ends[i]).0 == affected.memory_ids[i]
                    && ends[i].1 == now
            &&& events.len() == affected.memory_ids.len() + 1
            &&& forall|i: int|
                0 <= i < affected.memory_ids.len() ==> (#[trigger] events[i]).memory_id
                    == affected.memory_ids[i] && events[i].event_type == "corrected"@
            &&& events.last().memory_id == request.new_memory_id
            &&& events.last().event_type == "correction_applied"@
        }),
{
}

/// The plan of a correction that is applied says so, and when; one that is only
/// looked at says that it is planned, and is not completed. Memories are
/// invalidated, claims and relationships corrected, in this order.
pub proof fn law_correction_says(
    request: CorrectionRequest,
    rows: CorrectionRows,
    run_id: Seq<char>,
    now: Timestamp,
    i: int,
)
    ensures
        ({
            let done = correction_plan(request, rows, true, run_id, now);
            let seen = correction_plan(request, rows, false, run_id, now);
            let a = done.affected;
            let m = a.memory_ids.len();
            let c = a.claim_ids.len();
            let r = a.relationship_ids.len();
            &&& done.run.policy == "correction"@ && seen.run.policy == "correction"@
            &&& done.run.mode == "apply"@ && seen.run.mode == "preview"@
            &&& done.run.status == "applied"@ && seen.run.status == "planned"@
            &&& done.run.completed_at == Some(now) && seen.run.completed_at is None
            &&& 0 <= i < m ==> {
                &&& done.actions[i].action_type == "invalidate_memory"@
                &&& seen.actions[i].action_type == "would_invalidate_memory"@
                &&& done.actions[i].target_type == "memory"@
                &&& done.actions[i].target_id == Some(
                    crate::ids::uuid_text(a.memory_ids[i].value),
                )
                &&& done.actions[i].status == "applied"@
            }
            &&& 0 <= i < c ==> {
                &&& done.actions[m + i].action_type == "correct_claim"@
                &&& seen.actions[m + i].action_type == "would_correct_claim"@
                &&& done.actions[m + i].target_type == "claim"@
                &&& done.actions[m + i].target_id == Some(a.claim_ids[i])
                &&& done.actions[m + i].status == "applied"@
            }
            &&& 0 <= i < r ==> {
                &&& done.actions[m + c + i].action_type == "correct_relationship"@
                &&& seen.actions[m + c + i].action_type == "would_correct_relationship"@
                &&& done.actions[m + c + i].target_type == "relationship"@
                &&& done.actions[m + c + i].target_id == Some(a.relationship_ids[i])
                &&& done.actions[m + c + i].status == "applied"@
            }
            &&& m + c + r == 0 ==> done.actions.len() == 1 && done.actions[0].action_type
                == "no_correction_candidates"@ && done.actions[0].target_id == Some(
                crate::ids::uuid_text(request.new_memory_id.value),
            )
        }),
{
}

/// The plan of a forget policy that is applied has the mode that was asked for, and
/// says when; one that is only looked at is a preview. It acts on each affected
/// memory, claim, relationship and entity, in this order, and each forgotten memory
/// has an event.
pub proof fn law_forget_says(
    scope: (Seq<char>, Seq<char>, Seq<char>),
    facts: ScopeFacts,
    mode: ForgetMode,
    run_id: Seq<char>,
    now: Timestamp,
    i: int,
)
    ensures
        ({
            let done = forget_plan(scope, facts, mode, true, run_id, now);
            let seen = forget_plan(scope, facts, mode, false, run_id, now);
            let a = done.affected;
            let m = a.memory_ids.len();
            let c = a.claim_ids.len();
            let r = a.relationship_ids.len();
            let e = a.entity_ids.len();
            let events = forget_events(run_id, a, mode, now);
            &&& done.run.policy == "forget"@ && seen.run.policy == "forget"@
            &&& mode is Soft ==> done.run.mode == "soft"@
            &&& mode is Hard ==> done.run.mode == "hard"@
            &&& seen.run.mode == "preview"@
            &&& done.run.status == "applied"@ && seen.run.status == "planned"@
            &&& done.run.completed_at == Some(now) && seen.run.completed_at is None
            &&& done.actions.len() == m + c + r + e
            &&& 0 <= i < m ==> done.actions[i].target_type == "memory"@
                && done.actions[i].target_id == Some(crate::ids::uuid_text(a.memory_ids[i].value))
                && done.actions[i].action_type == "forget"@ + "_memory"@
                && seen.actions[i].action_type == "would_forget"@ + "_memory"@
            &&& 0 <= i < c ==> done.actions[m + i].target_type == "claim"@ && done.actions[m
                + i].target_id == Some(a.claim_ids[i]) && done.actions[m + i].action_type
                == "forget"@ + "_claim"@
            &&& 0 <= i < r ==> done.actions[m + c + i].target_type == "relationship"@
                && done.actions[m + c + i].target_id == Some(a.relationship_ids[i])
                && done.actions[m + c + i].action_type == "forget"@ + "_relationship"@
            &&& 0 <= i < e ==> done.actions[m + c + r + i].target_type == "entity"@
                && done.actions[m + c + r + i].target_id == Some(a.entity_ids[i])
                && done.actions[m + c + r + i].action_type == "forget"@ + "_entity"@
            &&& events.len() == m
            &&& 0 <= i < m ==> events[i].memory_id == a.memory_ids[i] && events[i].event_type
                == "forgotten"@
        }),
{
}

} // verus!
