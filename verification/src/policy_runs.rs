//! Policy runs: what a correction, a forget, a decay or an archive policy does,
//! action by action.
use crate::audit::{copy_payload, field, payload_view, Datum, Field, PayloadField};
use crate::clock::now_us;
use crate::float::Single;
use crate::ids::{fresh_text, id_text, is_fresh_text, uuid_text};
use crate::lifecycle::ArchivalDecision;
use crate::memory::{
    plain_edge, EdgeType, EdgeView, MemoryEdge, MemoryId, MemoryNode, MemoryView, Timestamp,
};
use crate::order::views_of;
use crate::policies::{
    id_texts, ids_json, is_archived, memory_is_archived, nothing, ordered, reached_by,
    resolve_forget_scope, scope_view, sorted_strings, tidied, tidy, AffectedView, CorrectionRequest,
    ForgetMode, ForgetScope, PolicyAffected, ScopeFacts,
};
use crate::text::{copy_opt, copy_text, copy_texts, lemma_views_push, opt_view, text_eq, views};
use vstd::prelude::*;

verus! {

// ---------------------------------------------------------------------------
// Records
// ---------------------------------------------------------------------------
/// What a run was asked to do.
#[derive(Debug)]
pub enum PolicyScope {
    Correction {
        new_memory_id: MemoryId,
        old_memory_id: Option<MemoryId>,
        reason: Option<String>,
    },
    Forget { scope: ForgetScope, mode: ForgetMode },
    Global,
}

/// The mathematical form of what a run was asked to do.
pub enum PolicyScopeView {
    Correction {
        new_memory_id: MemoryId,
        old_memory_id: Option<MemoryId>,
        reason: Option<Seq<char>>,
    },
    Forget { scope: (Seq<char>, Seq<char>, Seq<char>), mode: ForgetMode },
    Global,
}

impl View for PolicyScope {
    type V = PolicyScopeView;

    open spec fn view(&self) -> PolicyScopeView {
        match *self {
            PolicyScope::Correction { new_memory_id, old_memory_id, reason } => {
                PolicyScopeView::Correction {
                    new_memory_id,
                    old_memory_id,
                    reason: opt_view(reason),
                }
            },
            PolicyScope::Forget { scope, mode } => PolicyScopeView::Forget {
                scope: scope_view(scope),
                mode,
            },
            PolicyScope::Global => PolicyScopeView::Global,
        }
    }
}

/// What came of a run.
#[derive(Debug)]
pub enum PolicyResult {
    Affected(PolicyAffected),
    MemoryCount(usize),
}

/// The mathematical form of what came of a run.
pub enum PolicyResultView {
    Affected(AffectedView),
    MemoryCount(nat),
}

impl View for PolicyResult {
    type V = PolicyResultView;

    open spec fn view(&self) -> PolicyResultView {
        match *self {
            PolicyResult::Affected(a) => PolicyResultView::Affected(a@),
            PolicyResult::MemoryCount(n) => PolicyResultView::MemoryCount(n as nat),
        }
    }
}

/// One run of a policy.
#[derive(Debug)]
pub struct PolicyRun {
    pub run_id: String,
    pub policy: &'static str,
    pub mode: &'static str,
    pub status: &'static str,
    pub scope: PolicyScope,
    pub result: PolicyResult,
    pub completed_at: Option<Timestamp>,
}

/// The mathematical form of a run.
pub struct RunView {
    pub run_id: Seq<char>,
    pub policy: Seq<char>,
    pub mode: Seq<char>,
    pub status: Seq<char>,
    pub scope: PolicyScopeView,
    pub result: PolicyResultView,
    pub completed_at: Option<Timestamp>,
}

impl View for PolicyRun {
    type V = RunView;

    open spec fn view(&self) -> RunView {
        RunView {
            run_id: self.run_id@,
            policy: self.policy@,
            mode: self.mode@,
            status: self.status@,
            scope: self.scope@,
            result: self.result@,
            completed_at: self.completed_at,
        }
    }
}

/// One action of a run.
#[derive(Debug)]
pub struct PolicyAction {
    pub run_id: String,
    pub action_type: String,
    pub target_type: String,
    pub target_id: Option<String>,
    pub before: Vec<PayloadField>,
    pub after: Vec<PayloadField>,
    pub status: &'static str,
}

/// The mathematical form of an action.
#[verifier::ext_equal]
pub struct ActionView {
    pub run_id: Seq<char>,
    pub action_type: Seq<char>,
    pub target_type: Seq<char>,
    pub target_id: Option<Seq<char>>,
    pub before: Seq<(Seq<char>, Datum)>,
    pub after: Seq<(Seq<char>, Datum)>,
    pub status: Seq<char>,
}

impl View for PolicyAction {
    type V = ActionView;

    open spec fn view(&self) -> ActionView {
        ActionView {
            run_id: self.run_id@,
            action_type: self.action_type@,
            target_type: self.target_type@,
            target_id: opt_view(self.target_id),
            before: payload_view(self.before@),
            after: payload_view(self.after@),
            status: self.status@,
        }
    }
}

/// What happened to a memory.
#[derive(Debug)]
pub struct MemoryLifecycleEvent {
    pub event_id: String,
    pub memory_id: MemoryId,
    pub event_type: String,
    pub reason: Option<String>,
    pub policy: Option<String>,
    pub payload: Vec<PayloadField>,
    pub created_at: Timestamp,
}

/// The mathematical form of an event, without its identity and its time.
#[verifier::ext_equal]
pub struct LifecycleView {
    pub memory_id: MemoryId,
    pub event_type: Seq<char>,
    pub reason: Option<Seq<char>>,
    pub policy: Option<Seq<char>>,
    pub payload: Seq<(Seq<char>, Datum)>,
}

impl View for MemoryLifecycleEvent {
    type V = LifecycleView;

    open spec fn view(&self) -> LifecycleView {
        LifecycleView {
            memory_id: self.memory_id,
            event_type: self.event_type@,
            reason: opt_view(self.reason),
            policy: opt_view(self.policy),
            payload: payload_view(self.payload@),
        }
    }
}

/// Whether every event has a generated identity.
pub open spec fn events_fresh(events: Seq<MemoryLifecycleEvent>) -> bool {
    forall|i: int| 0 <= i < events.len() ==> is_fresh_text((#[trigger] events[i]).event_id@)
}

/// Previewable policy plan.
#[derive(Debug)]
pub struct PolicyPlan {
    pub run: PolicyRun,
    pub actions: Vec<PolicyAction>,
    pub affected: PolicyAffected,
}

/// The mathematical form of a plan.
pub struct PlanView {
    pub run: RunView,
    pub actions: Seq<ActionView>,
    pub affected: AffectedView,
}

impl View for PolicyPlan {
    type V = PlanView;

    open spec fn view(&self) -> PlanView {
        PlanView {
            run: self.run@,
            actions: views_of(self.actions@),
            affected: self.affected@,
        }
    }
}

/// Result of applying a policy plan.
#[derive(Debug)]
pub struct PolicyReport {
    pub run_id: String,
    pub actions: usize,
    pub affected: PolicyAffected,
}

impl PolicyPlan {
    /// What is reported of a plan that was applied.
    pub fn report(self) -> (res: PolicyReport)
        ensures
            res.run_id@ == self.run.run_id@,
            res.actions == self.actions@.len(),
            res.affected@ == self.affected@,
    {
        PolicyReport {
            run_id: self.run.run_id,
            actions: self.actions.len(),
            affected: self.affected,
        }
    }
}

// ---------------------------------------------------------------------------
// Actions and events
// ---------------------------------------------------------------------------
/// The status of what was applied, or is only planned.
pub open spec fn status_name(applied: bool) -> Seq<char> {
    if applied {
        "applied"@
    } else {
        "planned"@
    }
}

fn status_str(applied: bool) -> (res: &'static str)
    ensures
        res@ == status_name(applied),
{
    if applied {
        "applied"
    } else {
        "planned"
    }
}

/// An action on a target.
pub open spec fn action_of(
    run_id: Seq<char>,
    action_type: Seq<char>,
    target_type: Seq<char>,
    target_id: Seq<char>,
    before: Seq<(Seq<char>, Datum)>,
    after: Seq<(Seq<char>, Datum)>,
    applied: bool,
) -> ActionView {
    ActionView {
        run_id,
        action_type,
        target_type,
        target_id: Some(target_id),
        before,
        after,
        status: status_name(applied),
    }
}

/// An action on a target.
pub fn policy_action(
    run_id: &str,
    action_type: &str,
    target_type: &str,
    target_id: String,
    before: Vec<PayloadField>,
    after: Vec<PayloadField>,
    applied: bool,
) -> (res: PolicyAction)
    ensures
        res@ == action_of(
            run_id@,
            action_type@,
            target_type@,
            target_id@,
            payload_view(before@),
            payload_view(after@),
            applied,
        ),
{
    PolicyAction {
        run_id: copy_text(run_id),
        action_type: copy_text(action_type),
        target_type: copy_text(target_type),
        target_id: Some(target_id),
        before,
        after,
        status: status_str(applied),
    }
}

/// An action that was applied.
pub fn applied_action(
    run_id: &str,
    action_type: &str,
    target_type: &str,
    target_id: String,
    before: Vec<PayloadField>,
    after: Vec<PayloadField>,
) -> (res: PolicyAction)
    ensures
        res@ == action_of(
            run_id@,
            action_type@,
            target_type@,
            target_id@,
            payload_view(before@),
            payload_view(after@),
            true,
        ),
{
    policy_action(run_id, action_type, target_type, target_id, before, after, true)
}

/// The same action on each of some targets.
pub open spec fn actions_on(
    run_id: Seq<char>,
    action_type: Seq<char>,
    target_type: Seq<char>,
    targets: Seq<Seq<char>>,
    before: Seq<(Seq<char>, Datum)>,
    after: Seq<(Seq<char>, Datum)>,
    applied: bool,
) -> Seq<ActionView> {
    targets.map_values(
        |t: Seq<char>|
            action_of(run_id, action_type, target_type, t, before, after, applied),
    )
}

fn push_actions(
    run_id: &str,
    action_type: &str,
    target_type: &str,
    targets: &Vec<String>,
    before: &Vec<PayloadField>,
    after: &Vec<PayloadField>,
    applied: bool,
    out: &mut Vec<PolicyAction>,
)
    ensures
        views_of(final(out)@) == views_of(old(out)@) + actions_on(
            run_id@,
            action_type@,
            target_type@,
            views(targets@),
            payload_view(before@),
            payload_view(after@),
            applied,
        ),
{
    let ghost start = views_of(out@);
    let ghost all = actions_on(
        run_id@,
        action_type@,
        target_type@,
        views(targets@),
        payload_view(before@),
        payload_view(after@),
        applied,
    );
    assert(start + all.take(0) =~= start);
    for i in 0..targets.len()
        invariant
            all == actions_on(
                run_id@,
                action_type@,
                target_type@,
                views(targets@),
                payload_view(before@),
                payload_view(after@),
                applied,
            ),
            views_of(out@) == start + all.take(i as int),
    {
        let ghost old_out = out@;
        let action = policy_action(
            run_id,
            action_type,
            target_type,
            copy_text(targets[i].as_str()),
            copy_payload(before),
            copy_payload(after),
            applied,
        );
        out.push(action);
        proof {
            assert(action@ == all[i as int]);
            assert(views_of(out@) =~= views_of(old_out).push(action@));
            assert(start + all.take(i + 1) =~= (start + all.take(i as int)).push(all[i as int]));
        }
    }
    assert(all.take(all.len() as int) =~= all);
}

/// An event with a given identity and time.
pub fn lifecycle_event_at(
    event_id: String,
    memory_id: MemoryId,
    event_type: &str,
    reason: &str,
    policy: &str,
    payload: Vec<PayloadField>,
    now: Timestamp,
) -> (res: MemoryLifecycleEvent)
    ensures
        res.event_id@ == event_id@,
        res.created_at == now,
        res@ == (LifecycleView {
            memory_id,
            event_type: event_type@,
            reason: Some(reason@),
            policy: Some(policy@),
            payload: payload_view(payload@),
        }),
{
    MemoryLifecycleEvent {
        event_id,
        memory_id,
        event_type: copy_text(event_type),
        reason: Some(copy_text(reason)),
        policy: Some(copy_text(policy)),
        payload,
        created_at: now,
    }
}

/// An event of now, with a generated identity.
pub fn lifecycle_event(
    memory_id: MemoryId,
    event_type: &str,
    reason: &str,
    policy: &str,
    payload: Vec<PayloadField>,
) -> (res: MemoryLifecycleEvent)
    ensures
        is_fresh_text(res.event_id@),
        res@ == (LifecycleView {
            memory_id,
            event_type: event_type@,
            reason: Some(reason@),
            policy: Some(policy@),
            payload: payload_view(payload@),
        }),
{
    lifecycle_event_at(fresh_text(), memory_id, event_type, reason, policy, payload, now_us())
}

/// The same event for each of some memories.
pub open spec fn events_for(
    ids: Seq<MemoryId>,
    event_type: Seq<char>,
    reason: Seq<char>,
    policy: Seq<char>,
    payload: Seq<(Seq<char>, Datum)>,
) -> Seq<LifecycleView> {
    ids.map_values(
        |id: MemoryId|
            LifecycleView {
                memory_id: id,
                event_type,
                reason: Some(reason),
                policy: Some(policy),
                payload,
            },
    )
}

fn events_each(
    ids: &Vec<MemoryId>,
    event_type: &str,
    reason: &str,
    policy: &str,
    payload: &Vec<PayloadField>,
) -> (res: Vec<MemoryLifecycleEvent>)
    ensures
        events_fresh(res@),
        views_of(res@) == events_for(
            ids@,
            event_type@,
            reason@,
            policy@,
            payload_view(payload@),
        ),
{
    let ghost all = events_for(ids@, event_type@, reason@, policy@, payload_view(payload@));
    let mut out: Vec<MemoryLifecycleEvent> = Vec::new();
    assert(views_of(out@) =~= all.take(0));
    for i in 0..ids.len()
        invariant
            all == events_for(ids@, event_type@, reason@, policy@, payload_view(payload@)),
            views_of(out@) == all.take(i as int),
            events_fresh(out@),
    {
        let ghost old_out = out@;
        let event = lifecycle_event(ids[i], event_type, reason, policy, copy_payload(payload));
        out.push(event);
        proof {
            assert(event@ == all[i as int]);
            assert(views_of(out@) =~= views_of(old_out).push(event@));
            assert(all.take(i + 1) =~= all.take(i as int).push(all[i as int]));
        }
    }
    assert(all.take(all.len() as int) =~= all);
    out
}

fn one_text(name: &'static str, value: &str) -> (res: Vec<PayloadField>)
    ensures
        payload_view(res@) == seq![(name@, Datum::Text(value@))],
{
    let mut out: Vec<PayloadField> = Vec::new();
    out.push(field(name, Field::Text(copy_text(value))));
    assert(payload_view(out@) =~= seq![(name@, Datum::Text(value@))]);
    out
}

fn no_payload() -> (res: Vec<PayloadField>)
    ensures
        payload_view(res@) == Seq::<(Seq<char>, Datum)>::empty(),
{
    let out: Vec<PayloadField> = Vec::new();
    assert(payload_view(out@) =~= Seq::<(Seq<char>, Datum)>::empty());
    out
}

// ---------------------------------------------------------------------------
// Corrections
// ---------------------------------------------------------------------------
/// A claim or a relationship with its status.
#[derive(Debug)]
pub struct StatusRow {
    pub id: String,
    pub status: String,
}

impl View for StatusRow {
    type V = (Seq<char>, Seq<char>);

    open spec fn view(&self) -> (Seq<char>, Seq<char>) {
        (self.id@, self.status@)
    }
}

/// A claim or a relationship of an entity, with its status and its evidence.
#[derive(Debug)]
pub struct CandidateRow {
    pub id: String,
    pub status: String,
    pub evidence: Vec<MemoryId>,
}

/// The mathematical form of a candidate.
pub struct CandidateView {
    pub id: Seq<char>,
    pub status: Seq<char>,
    pub evidence: Seq<MemoryId>,
}

impl View for CandidateRow {
    type V = CandidateView;

    open spec fn view(&self) -> CandidateView {
        CandidateView { id: self.id@, status: self.status@, evidence: self.evidence@ }
    }
}

/// What the store holds around a correction: the claims and relationships of the
/// corrected memory, and those of the entities of the correcting one.
#[derive(Debug)]
pub struct CorrectionRows {
    pub old_claims: Vec<StatusRow>,
    pub old_relationships: Vec<StatusRow>,
    pub candidate_claims: Vec<CandidateRow>,
    pub candidate_relationships: Vec<CandidateRow>,
}

/// The identities of the active rows.
pub open spec fn active_ids(rows: Seq<(Seq<char>, Seq<char>)>) -> Seq<Seq<char>>
    decreases rows.len(),
{
    if rows.len() == 0 {
        Seq::empty()
    } else if rows.last().1 == "active"@ {
        active_ids(rows.drop_last()).push(rows.last().0)
    } else {
        active_ids(rows.drop_last())
    }
}

/// Whether a row can be corrected by a memory: it is active, and the memory is
/// no evidence for it.
pub open spec fn is_candidate(row: CandidateView, new_memory_id: MemoryId) -> bool {
    row.status == "active"@ && !row.evidence.contains(new_memory_id)
}

/// The identities of the rows that a memory can correct.
pub open spec fn candidate_ids(rows: Seq<CandidateView>, new_memory_id: MemoryId) -> Seq<Seq<char>>
    decreases rows.len(),
{
    if rows.len() == 0 {
        Seq::empty()
    } else if is_candidate(rows.last(), new_memory_id) {
        candidate_ids(rows.drop_last(), new_memory_id).push(rows.last().id)
    } else {
        candidate_ids(rows.drop_last(), new_memory_id)
    }
}

fn push_active(rows: &Vec<StatusRow>, out: &mut Vec<String>)
    ensures
        views(final(out)@) == views(old(out)@) + active_ids(views_of(rows@)),
{
    let ghost start = views(out@);
    let ghost v = views_of(rows@);
    assert(start + active_ids(v.take(0)) =~= start);
    for i in 0..rows.len()
        invariant
            v == views_of(rows@),
            views(out@) == start + active_ids(v.take(i as int)),
    {
        proof {
            assert(v.take(i + 1).drop_last() =~= v.take(i as int));
            assert(v.take(i + 1).last() == rows@[i as int]@);
        }
        if text_eq(rows[i].status.as_str(), "active") {
            let id = copy_text(rows[i].id.as_str());
            proof {
                lemma_views_push(out@, id);
                assert(start + active_ids(v.take(i + 1)) =~= (start + active_ids(
                    v.take(i as int),
                )).push(id@));
            }
            out.push(id);
        }
    }
    assert(v.take(v.len() as int) =~= v);
}

/// The identities of the rows that a memory can correct.
pub fn collect_correction_candidates(rows: &Vec<CandidateRow>, new_memory_id: MemoryId) -> (res:
    Vec<String>)
    ensures
        views(res@) == candidate_ids(views_of(rows@), new_memory_id),
{
    let ghost v = views_of(rows@);
    let mut out: Vec<String> = Vec::new();
    assert(views(out@) =~= candidate_ids(v.take(0), new_memory_id));
    for i in 0..rows.len()
        invariant
            v == views_of(rows@),
            views(out@) == candidate_ids(v.take(i as int), new_memory_id),
    {
        proof {
            assert(v.take(i + 1).drop_last() =~= v.take(i as int));
            assert(v.take(i + 1).last() == rows@[i as int]@);
        }
        if text_eq(rows[i].status.as_str(), "active") && !crate::query::has_id(
            &rows[i].evidence,
            new_memory_id,
        ) {
            let id = copy_text(rows[i].id.as_str());
            proof {
                lemma_views_push(out@, id);
            }
            out.push(id);
        }
    }
    assert(v.take(v.len() as int) =~= v);
    out
}

/// The claims that a request names or that are active on the corrected memory.
pub open spec fn named_claims(request: CorrectionRequest, rows: CorrectionRows) -> Seq<Seq<char>> {
    views(request.claim_ids@) + if request.old_memory_id is Some {
        active_ids(views_of(rows.old_claims@))
    } else {
        Seq::empty()
    }
}

/// The relationships that a request names or that are active on the corrected
/// memory.
pub open spec fn named_relationships(request: CorrectionRequest, rows: CorrectionRows) -> Seq<
    Seq<char>,
> {
    views(request.relationship_ids@) + if request.old_memory_id is Some {
        active_ids(views_of(rows.old_relationships@))
    } else {
        Seq::empty()
    }
}

/// Whether a request names nothing, so that candidates are looked for.
pub open spec fn wants_candidates(request: CorrectionRequest, rows: CorrectionRows) -> bool {
    named_claims(request, rows).len() == 0 && named_relationships(request, rows).len() == 0
}

/// What a correction affects. Entities never are.
pub open spec fn correction_affected(
    request: CorrectionRequest,
    rows: CorrectionRows,
) -> AffectedView {
    AffectedView {
        memory_ids: match request.old_memory_id {
            Some(old_id) => seq![old_id],
            None => Seq::empty(),
        },
        claim_ids: ordered(
            if wants_candidates(request, rows) {
                candidate_ids(views_of(rows.candidate_claims@), request.new_memory_id)
            } else {
                named_claims(request, rows)
            },
        ),
        relationship_ids: ordered(
            if wants_candidates(request, rows) {
                candidate_ids(views_of(rows.candidate_relationships@), request.new_memory_id)
            } else {
                named_relationships(request, rows)
            },
        ),
        entity_ids: Seq::empty(),
    }
}

fn name_rows(request: &CorrectionRequest, rows: &CorrectionRows) -> (res: (
    Vec<String>,
    Vec<String>,
))
    ensures
        views(res.0@) == named_claims(*request, *rows),
        views(res.1@) == named_relationships(*request, *rows),
{
    let mut claims = copy_texts(&request.claim_ids);
    let mut relationships = copy_texts(&request.relationship_ids);
    if request.old_memory_id.is_some() {
        push_active(&rows.old_claims, &mut claims);
        push_active(&rows.old_relationships, &mut relationships);
    }
    proof {
        assert(views(claims@) =~= named_claims(*request, *rows));
        assert(views(relationships@) =~= named_relationships(*request, *rows));
    }
    (claims, relationships)
}

/// Whether candidates have to be looked for.
pub fn needs_candidates(request: &CorrectionRequest, rows: &CorrectionRows) -> (res: bool)
    ensures
        res == wants_candidates(*request, *rows),
{
    let (claims, relationships) = name_rows(request, rows);
    claims.len() == 0 && relationships.len() == 0
}

fn affected_by_correction(request: &CorrectionRequest, rows: &CorrectionRows) -> (res:
    PolicyAffected)
    ensures
        res@ == correction_affected(*request, *rows),
{
    let (named_c, named_r) = name_rows(request, rows);
    let mut memory_ids: Vec<MemoryId> = Vec::new();
    if let Some(old_id) = request.old_memory_id {
        memory_ids.push(old_id);
    }
    let (claims, relationships) = if named_c.len() == 0 && named_r.len() == 0 {
        (
            collect_correction_candidates(&rows.candidate_claims, request.new_memory_id),
            collect_correction_candidates(&rows.candidate_relationships, request.new_memory_id),
        )
    } else {
        (named_c, named_r)
    };
    let res = PolicyAffected {
        memory_ids,
        claim_ids: sorted_strings(&claims),
        relationship_ids: sorted_strings(&relationships),
        entity_ids: Vec::new(),
    };
    assert(res@ =~= correction_affected(*request, *rows));
    res
}

/// What a row becomes when it is corrected.
pub open spec fn corrected_payload(now: Timestamp) -> Seq<(Seq<char>, Datum)> {
    seq![("status"@, Datum::Text("corrected"@)), ("valid_until"@, Datum::Count(now))]
}

/// The actions of a correction: memories are invalidated, claims and
/// relationships are corrected. Where there is nothing to do, one action says
/// so.
pub open spec fn correction_actions(
    run_id: Seq<char>,
    new_memory_id: MemoryId,
    affected: AffectedView,
    apply: bool,
    now: Timestamp,
) -> Seq<ActionView> {
    let none = Seq::<(Seq<char>, Datum)>::empty();
    let active = seq![("status"@, Datum::Text("active"@))];
    let all = actions_on(
        run_id,
        if apply {
            "invalidate_memory"@
        } else {
            "would_invalidate_memory"@
        },
        "memory"@,
        id_texts(affected.memory_ids),
        none,
        seq![("valid_until"@, Datum::Count(now))],
        apply,
    ) + actions_on(
        run_id,
        if apply {
            "correct_claim"@
        } else {
            "would_correct_claim"@
        },
        "claim"@,
        affected.claim_ids,
        active,
        corrected_payload(now),
        apply,
    ) + actions_on(
        run_id,
        if apply {
            "correct_relationship"@
        } else {
            "would_correct_relationship"@
        },
        "relationship"@,
        affected.relationship_ids,
        active,
        corrected_payload(now),
        apply,
    );
    if all.len() == 0 {
        seq![
            action_of(
                run_id,
                "no_correction_candidates"@,
                "memory"@,
                uuid_text(new_memory_id.value),
                none,
                none,
                apply,
            ),
        ]
    } else {
        all
    }
}

fn plan_correction(
    run_id: &str,
    new_memory_id: MemoryId,
    affected: &PolicyAffected,
    apply: bool,
    now: Timestamp,
) -> (res: Vec<PolicyAction>)
    ensures
        views_of(res@) == correction_actions(run_id@, new_memory_id, affected@, apply, now),
{
    let mut actions: Vec<PolicyAction> = Vec::new();
    let none = no_payload();
    let active = one_text("status", "active");
    let mut until: Vec<PayloadField> = Vec::new();
    until.push(field("valid_until", Field::Count(now)));
    let mut corrected: Vec<PayloadField> = Vec::new();
    corrected.push(field("status", Field::Text(copy_text("corrected"))));
    corrected.push(field("valid_until", Field::Count(now)));
    proof {
        assert(payload_view(until@) =~= seq![("valid_until"@, Datum::Count(now))]);
        assert(payload_view(corrected@) =~= corrected_payload(now));
        assert(views_of(actions@) =~= Seq::<ActionView>::empty());
    }
    let memory_texts = ids_json(&affected.memory_ids);
    push_actions(
        run_id,
        if apply {
            "invalidate_memory"
        } else {
            "would_invalidate_memory"
        },
        "memory",
        &memory_texts,
        &none,
        &until,
        apply,
        &mut actions,
    );
    push_actions(
        run_id,
        if apply {
            "correct_claim"
        } else {
            "would_correct_claim"
        },
        "claim",
        &affected.claim_ids,
        &active,
        &corrected,
        apply,
        &mut actions,
    );
    push_actions(
        run_id,
        if apply {
            "correct_relationship"
        } else {
            "would_correct_relationship"
        },
        "relationship",
        &affected.relationship_ids,
        &active,
        &corrected,
        apply,
        &mut actions,
    );
    proof {
        let e = Seq::<ActionView>::empty();
        let m = actions_on(
            run_id@,
            if apply {
                "invalidate_memory"@
            } else {
                "would_invalidate_memory"@
            },
            "memory"@,
            id_texts(affected@.memory_ids),
            Seq::<(Seq<char>, Datum)>::empty(),
            seq![("valid_until"@, Datum::Count(now))],
            apply,
        );
        assert(e + m =~= m);
    }
    if actions.len() == 0 {
        let action = policy_action(
            run_id,
            "no_correction_candidates",
            "memory",
            id_text(&new_memory_id),
            no_payload(),
            no_payload(),
            apply,
        );
        actions.push(action);
        assert(views_of(actions@) =~= seq![action@]);
    }
    actions
}

/// The plan of a correction.
pub open spec fn correction_plan(
    request: CorrectionRequest,
    rows: CorrectionRows,
    apply: bool,
    run_id: Seq<char>,
    now: Timestamp,
) -> PlanView {
    let affected = correction_affected(request, rows);
    PlanView {
        run: RunView {
            run_id,
            policy: "correction"@,
            mode: if apply {
                "apply"@
            } else {
                "preview"@
            },
            status: status_name(apply),
            scope: PolicyScopeView::Correction {
                new_memory_id: request.new_memory_id,
                old_memory_id: request.old_memory_id,
                reason: opt_view(request.reason),
            },
            result: PolicyResultView::Affected(affected),
            completed_at: if apply {
                Some(now)
            } else {
                None
            },
        },
        actions: correction_actions(run_id, request.new_memory_id, affected, apply, now),
        affected,
    }
}

/// Plans a correction, with a given identity and time of the run.
pub fn build_correction_plan_at(
    request: &CorrectionRequest,
    rows: &CorrectionRows,
    apply: bool,
    run_id: String,
    now: Timestamp,
) -> (res: PolicyPlan)
    ensures
        res@ == correction_plan(*request, *rows, apply, run_id@, now),
{
    let affected = affected_by_correction(request, rows);
    let actions = plan_correction(run_id.as_str(), request.new_memory_id, &affected, apply, now);
    PolicyPlan {
        run: PolicyRun {
            run_id,
            policy: "correction",
            mode: if apply {
                "apply"
            } else {
                "preview"
            },
            status: status_str(apply),
            scope: PolicyScope::Correction {
                new_memory_id: request.new_memory_id,
                old_memory_id: request.old_memory_id,
                reason: copy_opt(&request.reason),
            },
            result: PolicyResult::Affected(affected.copy()),
            completed_at: if apply {
                Some(now)
            } else {
                None
            },
        },
        actions,
        affected,
    }
}

/// Plans a correction that is previewed or applied at a given time.
pub fn build_correction_plan(
    request: &CorrectionRequest,
    rows: &CorrectionRows,
    apply: bool,
    now: Timestamp,
) -> (res: PolicyPlan)
    ensures
        is_fresh_text(res@.run.run_id),
        res@ == correction_plan(*request, *rows, apply, res@.run.run_id, now),
{
    build_correction_plan_at(request, rows, apply, fresh_text(), now)
}

/// The memories that a correction invalidates, each with the time from which it
/// no longer holds.
pub open spec fn invalidations(ids: Seq<MemoryId>, now: Timestamp) -> Seq<(MemoryId, Timestamp)> {
    ids.map_values(|id: MemoryId| (id, now))
}

/// The edge that a correction leaves behind: the new memory supersedes the old
/// one.
pub open spec fn correction_edges(request: CorrectionRequest, now: Timestamp) -> Seq<EdgeView> {
    match request.old_memory_id {
        Some(old_id) => seq![
            plain_edge(
                request.new_memory_id,
                old_id,
                EdgeType::Supersedes,
                Single { bits: 0x3f80_0000 },
                now,
                opt_view(request.reason),
            ),
        ],
        None => Seq::empty(),
    }
}

/// The events of a correction: one for each corrected memory, one for the
/// memory that corrects.
pub open spec fn correction_events(
    run_id: Seq<char>,
    affected: AffectedView,
    new_memory_id: MemoryId,
    now: Timestamp,
) -> Seq<LifecycleView> {
    events_for(
        affected.memory_ids,
        "corrected"@,
        "correction_policy_applied"@,
        "correction"@,
        seq![
            ("run_id"@, Datum::Text(run_id)),
            ("corrected_by"@, Datum::Text(uuid_text(new_memory_id.value))),
            ("valid_until"@, Datum::Count(now)),
        ],
    ).push(
        LifecycleView {
            memory_id: new_memory_id,
            event_type: "correction_applied"@,
            reason: Some("correction_policy_applied"@),
            policy: Some("correction"@),
            payload: seq![
                ("run_id"@, Datum::Text(run_id)),
                ("corrected_memory_count"@, Datum::Count(affected.memory_ids.len() as u64)),
                ("corrected_claim_count"@, Datum::Count(affected.claim_ids.len() as u64)),
                (
                    "corrected_relationship_count"@,
                    Datum::Count(affected.relationship_ids.len() as u64),
                ),
            ],
        },
    )
}

/// The events of a correction.
pub fn correction_lifecycle_events(plan: &PolicyPlan, new_memory_id: MemoryId, now: Timestamp) -> (
    res: Vec<MemoryLifecycleEvent>)
    ensures
        events_fresh(res@),
        views_of(res@) == correction_events(
            plan.run.run_id@,
            plan.affected@,
            new_memory_id,
            now,
        ),
{
    let mut payload: Vec<PayloadField> = Vec::new();
    payload.push(field("run_id", Field::Text(copy_text(plan.run.run_id.as_str()))));
    payload.push(field("corrected_by", Field::Text(id_text(&new_memory_id))));
    payload.push(field("valid_until", Field::Count(now)));
    proof {
        assert(payload_view(payload@) =~= seq![
            ("run_id"@, Datum::Text(plan.run.run_id@)),
            ("corrected_by"@, Datum::Text(uuid_text(new_memory_id.value))),
            ("valid_until"@, Datum::Count(now)),
        ]);
    }
    let mut events = events_each(
        &plan.affected.memory_ids,
        "corrected",
        "correction_policy_applied",
        "correction",
        &payload,
    );
    let mut counts: Vec<PayloadField> = Vec::new();
    counts.push(field("run_id", Field::Text(copy_text(plan.run.run_id.as_str()))));
    counts.push(
        field("corrected_memory_count", Field::Count(plan.affected.memory_ids.len() as u64)),
    );
    counts.push(field("corrected_claim_count", Field::Count(plan.affected.claim_ids.len() as u64)));
    counts.push(
        field(
            "corrected_relationship_count",
            Field::Count(plan.affected.relationship_ids.len() as u64),
        ),
    );
    proof {
        assert(payload_view(counts@) =~= seq![
            ("run_id"@, Datum::Text(plan.run.run_id@)),
            ("corrected_memory_count"@, Datum::Count(plan.affected@.memory_ids.len() as u64)),
            ("corrected_claim_count"@, Datum::Count(plan.affected@.claim_ids.len() as u64)),
            (
                "corrected_relationship_count"@,
                Datum::Count(plan.affected@.relationship_ids.len() as u64),
            ),
        ]);
    }
    let last = lifecycle_event(
        new_memory_id,
        "correction_applied",
        "correction_policy_applied",
        "correction",
        counts,
    );
    let ghost before = events@;
    events.push(last);
    assert(views_of(events@) =~= views_of(before).push(last@));
    events
}

/// What applying a correction changes besides the claims and relationships of
/// its plan.
#[derive(Debug)]
pub struct CorrectionMutation {
    pub memory_invalidations: Vec<(MemoryId, Timestamp)>,
    pub edges: Vec<MemoryEdge>,
    pub lifecycle_events: Vec<MemoryLifecycleEvent>,
    pub applied_at: Timestamp,
}

/// What applying a correction plan changes. It takes effect when the run
/// completed, or else at the given time.
pub fn apply_correction_policy(
    plan: &PolicyPlan,
    request: &CorrectionRequest,
    otherwise: Timestamp,
) -> (res: CorrectionMutation)
    ensures
        res.applied_at == match plan.run.completed_at {
            Some(t) => t,
            None => otherwise,
        },
        res.memory_invalidations@ == invalidations(plan.affected.memory_ids@, res.applied_at),
        events_fresh(res.lifecycle_events@),
        views_of(res.edges@) == correction_edges(*request, res.applied_at),
        views_of(res.lifecycle_events@) == correction_events(
            plan.run.run_id@,
            plan.affected@,
            request.new_memory_id,
            res.applied_at,
        ),
{
    let now: Timestamp = match plan.run.completed_at {
        Some(t) => t,
        None => otherwise,
    };
    let ids = &plan.affected.memory_ids;
    let mut memory_invalidations: Vec<(MemoryId, Timestamp)> = Vec::new();
    for i in 0..ids.len()
        invariant
            ids == plan.affected.memory_ids,
            memory_invalidations@ =~= invalidations(ids@, now).take(i as int),
    {
        memory_invalidations.push((ids[i], now));
    }
    assert(invalidations(ids@, now).take(ids.len() as int) =~= invalidations(ids@, now));
    let mut edges: Vec<MemoryEdge> = Vec::new();
    if let Some(old_id) = request.old_memory_id {
        edges.push(
            MemoryEdge::plain(
                request.new_memory_id,
                old_id,
                EdgeType::Supersedes,
                Single { bits: 0x3f80_0000 },
                now,
                copy_opt(&request.reason),
            ),
        );
    }
    assert(views_of(edges@) =~= correction_edges(*request, now));
    CorrectionMutation {
        memory_invalidations,
        edges,
        lifecycle_events: correction_lifecycle_events(plan, request.new_memory_id, now),
        applied_at: now,
    }
}

// ---------------------------------------------------------------------------
// Forgetting
// ---------------------------------------------------------------------------
/// The type of a forget action on a kind of target.
pub open spec fn forget_action_type(apply: bool, kind: Seq<char>) -> Seq<char> {
    (if apply {
        "forget"@
    } else {
        "would_forget"@
    }) + kind
}

/// The actions of a forget policy on one kind of target.
pub open spec fn forget_actions_on(
    run_id: Seq<char>,
    kind: Seq<char>,
    target_type: Seq<char>,
    targets: Seq<Seq<char>>,
    mode: ForgetMode,
    apply: bool,
) -> Seq<ActionView> {
    actions_on(
        run_id,
        forget_action_type(apply, kind),
        target_type,
        targets,
        Seq::empty(),
        seq![("mode"@, Datum::Text(mode.name()))],
        apply,
    )
}

/// The actions of a forget policy: on memories, claims, relationships and
/// entities.
pub open spec fn forget_actions(
    run_id: Seq<char>,
    affected: AffectedView,
    mode: ForgetMode,
    apply: bool,
) -> Seq<ActionView> {
    forget_actions_on(
        run_id,
        "_memory"@,
        "memory"@,
        id_texts(affected.memory_ids),
        mode,
        apply,
    ) + forget_actions_on(run_id, "_claim"@, "claim"@, affected.claim_ids, mode, apply)
        + forget_actions_on(
        run_id,
        "_relationship"@,
        "relationship"@,
        affected.relationship_ids,
        mode,
        apply,
    ) + forget_actions_on(run_id, "_entity"@, "entity"@, affected.entity_ids, mode, apply)
}

fn push_forget_actions(
    run_id: &str,
    kind: &str,
    target_type: &str,
    targets: &Vec<String>,
    mode: ForgetMode,
    apply: bool,
    out: &mut Vec<PolicyAction>,
)
    ensures
        views_of(final(out)@) == views_of(old(out)@) + forget_actions_on(
            run_id@,
            kind@,
            target_type@,
            views(targets@),
            mode,
            apply,
        ),
{
    let mut action_type = copy_text(
        if apply {
            "forget"
        } else {
            "would_forget"
        },
    );
    action_type.append(kind);
    let none = no_payload();
    let after = one_text("mode", mode.as_str());
    push_actions(run_id, action_type.as_str(), target_type, targets, &none, &after, apply, out);
}

/// The plan of a forget policy.
pub open spec fn forget_plan(
    scope: (Seq<char>, Seq<char>, Seq<char>),
    facts: ScopeFacts,
    mode: ForgetMode,
    apply: bool,
    run_id: Seq<char>,
    now: Timestamp,
) -> PlanView {
    let affected = tidied(reached_by(facts));
    PlanView {
        run: RunView {
            run_id,
            policy: "forget"@,
            mode: if apply {
                mode.name()
            } else {
                "preview"@
            },
            status: status_name(apply),
            scope: PolicyScopeView::Forget { scope, mode },
            result: PolicyResultView::Affected(affected),
            completed_at: if apply {
                Some(now)
            } else {
                None
            },
        },
        actions: forget_actions(run_id, affected, mode, apply),
        affected,
    }
}

/// Plans a forget policy, with a given identity and time of the run.
pub fn build_forget_plan_at(
    scope: ForgetScope,
    facts: &ScopeFacts,
    mode: ForgetMode,
    apply: bool,
    run_id: String,
    now: Timestamp,
) -> (res: PolicyPlan)
    ensures
        res@ == forget_plan(scope_view(scope), *facts, mode, apply, run_id@, now),
{
    let affected = tidy(resolve_forget_scope(facts));
    let mut actions: Vec<PolicyAction> = Vec::new();
    let run = run_id.as_str();
    let memory_texts = ids_json(&affected.memory_ids);
    push_forget_actions(run, "_memory", "memory", &memory_texts, mode, apply, &mut actions);
    push_forget_actions(run, "_claim", "claim", &affected.claim_ids, mode, apply, &mut actions);
    push_forget_actions(
        run,
        "_relationship",
        "relationship",
        &affected.relationship_ids,
        mode,
        apply,
        &mut actions,
    );
    push_forget_actions(run, "_entity", "entity", &affected.entity_ids, mode, apply, &mut actions);
    proof {
        assert(views_of(Seq::<PolicyAction>::empty()) =~= Seq::<ActionView>::empty());
        assert(views_of(actions@) =~= forget_actions(run_id@, affected@, mode, apply));
    }
    PolicyPlan {
        run: PolicyRun {
            run_id,
            policy: "forget",
            mode: if apply {
                mode.as_str()
            } else {
                "preview"
            },
            status: status_str(apply),
            scope: PolicyScope::Forget { scope, mode },
            result: PolicyResult::Affected(affected.copy()),
            completed_at: if apply {
                Some(now)
            } else {
                None
            },
        },
        actions,
        affected,
    }
}

/// Plans a forget policy that is previewed or applied at a given time.
pub fn build_forget_plan(
    scope: ForgetScope,
    facts: &ScopeFacts,
    mode: ForgetMode,
    apply: bool,
    now: Timestamp,
) -> (res: PolicyPlan)
    ensures
        is_fresh_text(res@.run.run_id),
        res@ == forget_plan(scope_view(scope), *facts, mode, apply, res@.run.run_id, now),
{
    build_forget_plan_at(scope, facts, mode, apply, fresh_text(), now)
}

/// The events of a forget policy: one for each memory.
pub open spec fn forget_events(
    run_id: Seq<char>,
    affected: AffectedView,
    mode: ForgetMode,
    now: Timestamp,
) -> Seq<LifecycleView> {
    events_for(
        affected.memory_ids,
        "forgotten"@,
        "forget_policy_applied"@,
        "forget"@,
        seq![
            ("run_id"@, Datum::Text(run_id)),
            ("mode"@, Datum::Text(mode.name())),
            ("applied_at"@, Datum::Count(now)),
        ],
    )
}

/// The events of a forget policy.
pub fn forget_lifecycle_events(plan: &PolicyPlan, mode: ForgetMode, now: Timestamp) -> (res: Vec<
    MemoryLifecycleEvent,
>)
    ensures
        events_fresh(res@),
        views_of(res@) == forget_events(plan.run.run_id@, plan.affected@, mode, now),
{
    let mut payload: Vec<PayloadField> = Vec::new();
    payload.push(field("run_id", Field::Text(copy_text(plan.run.run_id.as_str()))));
    payload.push(field("mode", Field::Text(copy_text(mode.as_str()))));
    payload.push(field("applied_at", Field::Count(now)));
    proof {
        assert(payload_view(payload@) =~= seq![
            ("run_id"@, Datum::Text(plan.run.run_id@)),
            ("mode"@, Datum::Text(mode.name())),
            ("applied_at"@, Datum::Count(now)),
        ]);
    }
    events_each(
        &plan.affected.memory_ids,
        "forgotten",
        "forget_policy_applied",
        "forget",
        &payload,
    )
}

/// What applying a forget plan changes besides the rows of its plan.
#[derive(Debug)]
pub struct ForgetMutation {
    pub lifecycle_events: Vec<MemoryLifecycleEvent>,
    /// Whether the affected rows are deleted, and the memories leave the graph.
    pub hard_delete: bool,
    pub applied_at: Timestamp,
}

/// What applying a forget plan changes. It takes effect when the run completed,
/// or else at the given time.
pub fn apply_forget_policy(plan: &PolicyPlan, mode: ForgetMode, otherwise: Timestamp) -> (res:
    ForgetMutation)
    ensures
        res.applied_at == match plan.run.completed_at {
            Some(t) => t,
            None => otherwise,
        },
        res.hard_delete == (mode == ForgetMode::Hard),
        events_fresh(res.lifecycle_events@),
        views_of(res.lifecycle_events@) == forget_events(
            plan.run.run_id@,
            plan.affected@,
            mode,
            res.applied_at,
        ),
{
    let now: Timestamp = match plan.run.completed_at {
        Some(t) => t,
        None => otherwise,
    };
    ForgetMutation {
        lifecycle_events: forget_lifecycle_events(plan, mode, now),
        hard_delete: mode == ForgetMode::Hard,
        applied_at: now,
    }
}

// ---------------------------------------------------------------------------
// Decay and archival
// ---------------------------------------------------------------------------
/// What a policy over all memories does to one of them.
pub struct Change {
    pub memory: MemoryView,
    pub action: ActionView,
    pub event: LifecycleView,
}

/// The change of a memory whose salience decays.
pub open spec fn decay_change(
    run_id: Seq<char>,
    m: MemoryView,
    salience: Single,
    now: Timestamp,
) -> Change {
    Change {
        memory: MemoryView { salience, ..m },
        action: action_of(
            run_id,
            "decay_memory"@,
            "memory"@,
            uuid_text(m.id.value),
            seq![("salience"@, Datum::Real(m.salience))],
            seq![("salience"@, Datum::Real(salience))],
            true,
        ),
        event: LifecycleView {
            memory_id: m.id,
            event_type: "decayed"@,
            reason: Some("salience_decay_applied"@),
            policy: Some("decay"@),
            payload: seq![
                ("previous_salience"@, Datum::Real(m.salience)),
                ("new_salience"@, Datum::Real(salience)),
                ("applied_at"@, Datum::Count(now)),
            ],
        },
    }
}

/// The changes of a decay policy. A memory whose salience did not move enough
/// has no new one, and stays as it is.
pub open spec fn decay_changes(
    run_id: Seq<char>,
    memories: Seq<MemoryView>,
    decayed: Seq<Option<Single>>,
    now: Timestamp,
) -> Seq<Change>
    decreases memories.len(),
{
    if memories.len() == 0 {
        Seq::empty()
    } else {
        let k = memories.len() - 1;
        let rest = decay_changes(run_id, memories.drop_last(), decayed, now);
        match decayed[k] {
            Some(salience) => rest.push(decay_change(run_id, memories[k], salience, now)),
            None => rest,
        }
    }
}

/// A memory as it is archived: tagged, and of a salience of at most 0.02.
pub open spec fn archived(m: MemoryView) -> MemoryView {
    MemoryView {
        tags: m.tags.push("archived"@),
        salience: m.salience.smaller(Single { bits: 0x3ca3_d70a }),
        ..m
    }
}

/// Whether a decision archives a memory.
pub open spec fn archives(decision: ArchivalDecision) -> bool {
    decision is Archive || decision is Delete
}

/// The change of a memory that is archived.
pub open spec fn archive_change(run_id: Seq<char>, m: MemoryView, now: Timestamp) -> Change {
    Change {
        memory: archived(m),
        action: action_of(
            run_id,
            "archive_memory"@,
            "memory"@,
            uuid_text(m.id.value),
            seq![("tags"@, Datum::List(m.tags)), ("salience"@, Datum::Real(m.salience))],
            seq![
                ("tags"@, Datum::List(archived(m).tags)),
                ("salience"@, Datum::Real(archived(m).salience)),
            ],
            true,
        ),
        event: LifecycleView {
            memory_id: m.id,
            event_type: "archived"@,
            reason: Some("archival_policy_applied"@),
            policy: Some("archive"@),
            payload: seq![("applied_at"@, Datum::Count(now))],
        },
    }
}

/// The changes of an archive policy. What is archived stays as it is.
pub open spec fn archive_changes(
    run_id: Seq<char>,
    memories: Seq<MemoryView>,
    decisions: Seq<ArchivalDecision>,
    now: Timestamp,
) -> Seq<Change>
    decreases memories.len(),
{
    if memories.len() == 0 {
        Seq::empty()
    } else {
        let k = memories.len() - 1;
        let rest = archive_changes(run_id, memories.drop_last(), decisions, now);
        if !is_archived(memories[k]) && archives(decisions[k]) {
            rest.push(archive_change(run_id, memories[k], now))
        } else {
            rest
        }
    }
}

/// A run over all memories with what it changes.
#[derive(Debug)]
pub struct GlobalRun {
    pub run: PolicyRun,
    pub actions: Vec<PolicyAction>,
    pub updates: Vec<MemoryNode>,
    pub lifecycle_events: Vec<MemoryLifecycleEvent>,
    pub affected: PolicyAffected,
}

/// Whether a run is that of a policy over all memories, with the given changes.
pub open spec fn is_global_run(
    run: GlobalRun,
    policy: Seq<char>,
    run_id: Seq<char>,
    changes: Seq<Change>,
    now: Timestamp,
) -> bool {
    &&& run.run@ == RunView {
        run_id,
        policy,
        mode: "apply"@,
        status: "applied"@,
        scope: PolicyScopeView::Global,
        result: PolicyResultView::MemoryCount(changes.len()),
        completed_at: Some(now),
    }
    &&& views_of(run.updates@) == changes.map_values(|c: Change| c.memory)
    &&& views_of(run.actions@) == changes.map_values(|c: Change| c.action)
    &&& views_of(run.lifecycle_events@) == changes.map_values(|c: Change| c.event)
    &&& events_fresh(run.lifecycle_events@)
    &&& run.affected@ == AffectedView {
        memory_ids: changes.map_values(|c: Change| c.memory.id),
        ..nothing()
    }
}

/// The changes that a run has gathered.
struct Gathered {
    updates: Vec<MemoryNode>,
    actions: Vec<PolicyAction>,
    events: Vec<MemoryLifecycleEvent>,
    ids: Vec<MemoryId>,
}

spec fn holds_changes(g: Gathered, changes: Seq<Change>) -> bool {
    &&& views_of(g.updates@) == changes.map_values(|c: Change| c.memory)
    &&& views_of(g.actions@) == changes.map_values(|c: Change| c.action)
    &&& views_of(g.events@) == changes.map_values(|c: Change| c.event)
    &&& events_fresh(g.events@)
    &&& g.ids@ == changes.map_values(|c: Change| c.memory.id)
}

impl Gathered {
    fn new() -> (res: Self)
        ensures
            holds_changes(res, Seq::empty()),
    {
        let res = Gathered {
            updates: Vec::new(),
            actions: Vec::new(),
            events: Vec::new(),
            ids: Vec::new(),
        };
        proof {
            let none = Seq::<Change>::empty();
            assert(views_of(res.updates@) =~= none.map_values(|c: Change| c.memory));
            assert(views_of(res.actions@) =~= none.map_values(|c: Change| c.action));
            assert(views_of(res.events@) =~= none.map_values(|c: Change| c.event));
            assert(res.ids@ =~= none.map_values(|c: Change| c.memory.id));
        }
        res
    }

    fn add_change(
        &mut self,
        node: MemoryNode,
        action: PolicyAction,
        event: MemoryLifecycleEvent,
        Ghost(changes): Ghost<Seq<Change>>,
    )
        requires
            holds_changes(*old(self), changes),
            is_fresh_text(event.event_id@),
        ensures
            holds_changes(
                *final(self),
                changes.push((Change { memory: node@, action: action@, event: event@ })),
            ),
    {
        let ghost before = *self;
        let ghost change = Change { memory: node@, action: action@, event: event@ };
        self.ids.push(node.id);
        self.updates.push(node);
        self.actions.push(action);
        self.events.push(event);
        proof {
            let all = changes.push(change);
            assert(views_of(self.updates@) =~= views_of(before.updates@).push(node@));
            assert(views_of(self.updates@) =~= all.map_values(|c: Change| c.memory));
            assert(views_of(self.actions@) =~= views_of(before.actions@).push(action@));
            assert(views_of(self.actions@) =~= all.map_values(|c: Change| c.action));
            assert(views_of(self.events@) =~= views_of(before.events@).push(event@));
            assert(views_of(self.events@) =~= all.map_values(|c: Change| c.event));
            assert(self.ids@ =~= all.map_values(|c: Change| c.memory.id));
        }
    }

    fn into_run(
        self,
        policy: &'static str,
        run_id: String,
        now: Timestamp,
        Ghost(changes): Ghost<Seq<Change>>,
    ) -> (res: GlobalRun)
        requires
            holds_changes(self, changes),
        ensures
            is_global_run(res, policy@, run_id@, changes, now),
    {
        let memory_count: usize = self.updates.len();
        proof {
            assert(views_of(self.updates@).len() == changes.len());
        }
        let affected = PolicyAffected {
            memory_ids: self.ids,
            claim_ids: Vec::new(),
            relationship_ids: Vec::new(),
            entity_ids: Vec::new(),
        };
        proof {
            assert(affected@ =~= AffectedView {
                memory_ids: changes.map_values(|c: Change| c.memory.id),
                ..nothing()
            });
        }
        GlobalRun {
            run: PolicyRun {
                run_id,
                policy,
                mode: "apply",
                status: "applied",
                scope: PolicyScope::Global,
                result: PolicyResult::MemoryCount(memory_count),
                completed_at: Some(now),
            },
            actions: self.actions,
            updates: self.updates,
            lifecycle_events: self.events,
            affected,
        }
    }
}

fn one_real(name: &'static str, value: Single) -> (res: Vec<PayloadField>)
    ensures
        payload_view(res@) == seq![(name@, Datum::Real(value))],
{
    let mut out: Vec<PayloadField> = Vec::new();
    out.push(field(name, Field::Real(value)));
    assert(payload_view(out@) =~= seq![(name@, Datum::Real(value))]);
    out
}

/// The run of a decay policy, with a given identity and time. For each memory it
/// is told the new salience, none where the salience did not move enough.
pub fn apply_decay_policy_at(
    memories: Vec<MemoryNode>,
    decayed: &Vec<Option<Single>>,
    run_id: String,
    now: Timestamp,
) -> (res: GlobalRun)
    requires
        decayed@.len() == memories@.len(),
    ensures
        is_global_run(
            res,
            "decay"@,
            run_id@,
            decay_changes(run_id@, views_of(memories@), decayed@, now),
            now,
        ),
{
    let ghost all = views_of(memories@);
    let ghost run = run_id@;
    let mut out = Gathered::new();
    let n: usize = memories.len();
    let mut i: usize = 0;
    assert(decay_changes(run, all.take(0), decayed@, now) =~= Seq::empty());
    for node in it: memories
        invariant
            all == views_of(it.seq()),
            run == run_id@,
            n == all.len(),
            decayed@.len() == n,
            i == it.index(),
            holds_changes(out, decay_changes(run, all.take(i as int), decayed@, now)),
    {
        proof {
            assert(all.take(i + 1).drop_last() =~= all.take(i as int));
            assert(all.take(i + 1)[i as int] == node@);
            assert(i < n);
        }
        if let Some(salience) = decayed[i] {
            let ghost m = node@;
            let id = node.id;
            let previous = node.salience;
            let mut payload: Vec<PayloadField> = Vec::new();
            payload.push(field("previous_salience", Field::Real(previous)));
            payload.push(field("new_salience", Field::Real(salience)));
            payload.push(field("applied_at", Field::Count(now)));
            proof {
                assert(payload_view(payload@) =~= decay_change(run, m, salience, now).event.payload);
            }
            let action = applied_action(
                run_id.as_str(),
                "decay_memory",
                "memory",
                id_text(&id),
                one_real("salience", previous),
                one_real("salience", salience),
            );
            let event = lifecycle_event(id, "decayed", "salience_decay_applied", "decay", payload);
            let updated = crate::lifecycle::with_salience(node, salience);
            out.add_change(
                updated,
                action,
                event,
                Ghost(decay_changes(run, all.take(i as int), decayed@, now)),
            );
        }
        i = i + 1;
    }
    proof {
        assert(all.take(all.len() as int) =~= all);
    }
    out.into_run("decay", run_id, now, Ghost(decay_changes(run, all, decayed@, now)))
}

/// The run of a decay policy that is applied at a given time.
pub fn apply_decay_policy_global(
    memories: Vec<MemoryNode>,
    decayed: &Vec<Option<Single>>,
    now: Timestamp,
) -> (res: GlobalRun)
    requires
        decayed@.len() == memories@.len(),
    ensures
        is_fresh_text(res.run.run_id@),
        is_global_run(
            res,
            "decay"@,
            res.run.run_id@,
            decay_changes(res.run.run_id@, views_of(memories@), decayed@, now),
            now,
        ),
{
    apply_decay_policy_at(memories, decayed, fresh_text(), now)
}

/// A memory as it is archived: tagged, and of a salience of at most 0.02.
pub fn archive_memory(memory: MemoryNode) -> (res: MemoryNode)
    ensures
        res@ == archived(memory@),
{
    let mut node = memory;
    let tag = copy_text("archived");
    proof {
        lemma_views_push(node.tags@, tag);
    }
    node.tags.push(tag);
    node.salience = node.salience.min(Single { bits: 0x3ca3_d70a });
    node
}

fn tags_and_salience(node: &MemoryNode) -> (res: Vec<PayloadField>)
    ensures
        payload_view(res@) == seq![
            ("tags"@, Datum::List(node@.tags)),
            ("salience"@, Datum::Real(node@.salience)),
        ],
{
    let mut out: Vec<PayloadField> = Vec::new();
    out.push(field("tags", Field::List(copy_texts(&node.tags))));
    out.push(field("salience", Field::Real(node.salience)));
    assert(payload_view(out@) =~= seq![
        ("tags"@, Datum::List(node@.tags)),
        ("salience"@, Datum::Real(node@.salience)),
    ]);
    out
}

/// The run of an archive policy, with a given identity and time. For each memory
/// it is told what the archival pipeline decided.
pub fn apply_archive_policy_at(
    memories: Vec<MemoryNode>,
    decisions: &Vec<ArchivalDecision>,
    run_id: String,
    now: Timestamp,
) -> (res: GlobalRun)
    requires
        decisions@.len() == memories@.len(),
    ensures
        is_global_run(
            res,
            "archive"@,
            run_id@,
            archive_changes(run_id@, views_of(memories@), decisions@, now),
            now,
        ),
{
    let ghost all = views_of(memories@);
    let ghost run = run_id@;
    let mut out = Gathered::new();
    let n: usize = memories.len();
    let mut i: usize = 0;
    assert(archive_changes(run, all.take(0), decisions@, now) =~= Seq::empty());
    for node in it: memories
        invariant
            all == views_of(it.seq()),
            run == run_id@,
            n == all.len(),
            decisions@.len() == n,
            i == it.index(),
            holds_changes(out, archive_changes(run, all.take(i as int), decisions@, now)),
    {
        proof {
            assert(all.take(i + 1).drop_last() =~= all.take(i as int));
            assert(all.take(i + 1)[i as int] == node@);
            assert(i < n);
        }
        let archiving = match &decisions[i] {
            ArchivalDecision::Archive => true,
            ArchivalDecision::Delete => true,
            ArchivalDecision::Keep => false,
            ArchivalDecision::Consolidate(_) => false,
        };
        if !memory_is_archived(&node) && archiving {
            let id = node.id;
            let before = tags_and_salience(&node);
            let updated = archive_memory(node);
            let after = tags_and_salience(&updated);
            let action = applied_action(
                run_id.as_str(),
                "archive_memory",
                "memory",
                id_text(&id),
                before,
                after,
            );
            let mut payload: Vec<PayloadField> = Vec::new();
            payload.push(field("applied_at", Field::Count(now)));
            proof {
                assert(payload_view(payload@) =~= seq![("applied_at"@, Datum::Count(now))]);
            }
            let event = lifecycle_event(
                id,
                "archived",
                "archival_policy_applied",
                "archive",
                payload,
            );
            out.add_change(
                updated,
                action,
                event,
                Ghost(archive_changes(run, all.take(i as int), decisions@, now)),
            );
        }
        i = i + 1;
    }
    proof {
        assert(all.take(all.len() as int) =~= all);
    }
    out.into_run("archive", run_id, now, Ghost(archive_changes(run, all, decisions@, now)))
}

/// The run of an archive policy that is applied at a given time.
pub fn apply_archive_policy_global(
    memories: Vec<MemoryNode>,
    decisions: &Vec<ArchivalDecision>,
    now: Timestamp,
) -> (res: GlobalRun)
    requires
        decisions@.len() == memories@.len(),
    ensures
        is_fresh_text(res.run.run_id@),
        is_global_run(
            res,
            "archive"@,
            res.run.run_id@,
            archive_changes(res.run.run_id@, views_of(memories@), decisions@, now),
            now,
        ),
{
    apply_archive_policy_at(memories, decisions, fresh_text(), now)
}

} // verus!
