//! Corrections, forgetting, decay and archival.
use mentedb::audit::{Field, PayloadField};
use mentedb::float::Single;
use mentedb::ids::id_text;
use mentedb::lifecycle::ArchivalDecision;
use mentedb::memory::{AgentId, EdgeType, MemoryId, MemoryNode, MemoryType};
use mentedb::policies::{
    ids_json, memory_is_archived, resolve_forget_scope, scope_lookup, sorted_strings,
    CorrectionRequest, EntityFacts, EvidencedRow, ForgetMode, ForgetScope, MemoryFacts,
    PolicyAffected, ScopeFacts, ScopeLookup,
};
use mentedb::policy_runs::{
    apply_archive_policy_at, apply_correction_policy, apply_decay_policy_at, apply_forget_policy,
    archive_memory, build_correction_plan_at, build_forget_plan, build_forget_plan_at,
    needs_candidates, CandidateRow, CorrectionRows, PolicyResult, PolicyScope, StatusRow,
};

fn single(x: f32) -> Single {
    Single::from_bits(x.to_bits())
}

fn id(n: u128) -> MemoryId {
    MemoryId { value: n }
}

fn texts(items: &[&str]) -> Vec<String> {
    items.iter().map(|s| s.to_string()).collect()
}

fn memory(n: u128, salience: f32) -> MemoryNode {
    let mut m = MemoryNode::at(
        id(n),
        AgentId { value: 1 },
        MemoryType::Semantic,
        "x".to_string(),
        Vec::new(),
        5,
    );
    m.salience = single(salience);
    m
}

fn field<'a>(fields: &'a [PayloadField], name: &str) -> &'a Field {
    &fields.iter().find(|f| f.name == name).unwrap().value
}

fn rows() -> CorrectionRows {
    CorrectionRows {
        old_claims: Vec::new(),
        old_relationships: Vec::new(),
        candidate_claims: Vec::new(),
        candidate_relationships: Vec::new(),
    }
}

fn status(id: &str, status: &str) -> StatusRow {
    StatusRow { id: id.to_string(), status: status.to_string() }
}

#[test]
fn modes_and_scopes_have_names() {
    assert_eq!(ForgetMode::Soft.as_str(), "soft");
    assert_eq!(ForgetMode::Hard.as_str(), "hard");
    let described = ForgetScope::Memory(id(1)).describe();
    assert_eq!(described, ("memory", "memory_id", id_text(&id(1))));
    assert_eq!(
        ForgetScope::Alias("a".to_string()).describe(),
        ("alias", "alias", "a".to_string())
    );
    assert_eq!(
        ForgetScope::Conversation("c".to_string()).describe(),
        ("conversation", "conversation_id", "c".to_string())
    );
    assert_eq!(sorted_strings(&texts(&["b", "a", "b"])), texts(&["a", "b"]));
    assert_eq!(ids_json(&vec![id(2)]), vec![id_text(&id(2))]);
    let none = PolicyAffected::default();
    assert!(none.memory_ids.is_empty() && none.entity_ids.is_empty());
}

#[test]
fn a_correction_reaches_the_active_rows_of_the_old_memory() {
    let mut request = CorrectionRequest::new(id(1));
    request.old_memory_id = Some(id(2));
    request.claim_ids = texts(&["c9"]);
    request.reason = Some("wrong".to_string());
    let mut found = rows();
    found.old_claims = vec![status("c2", "active"), status("c1", "active"), status("c0", "x")];
    found.old_relationships = vec![status("r1", "active")];
    assert!(!needs_candidates(&request, &found));
    let plan = build_correction_plan_at(&request, &found, true, "run".to_string(), 50);
    assert_eq!(plan.affected.memory_ids, vec![id(2)]);
    assert_eq!(plan.affected.claim_ids, texts(&["c1", "c2", "c9"]));
    assert_eq!(plan.affected.relationship_ids, texts(&["r1"]));
    assert_eq!((plan.run.policy, plan.run.mode, plan.run.status), ("correction", "apply", "applied"));
    assert_eq!(plan.run.completed_at, Some(50));
    let kinds: Vec<&str> = plan.actions.iter().map(|a| a.action_type.as_str()).collect();
    assert_eq!(
        kinds,
        vec![
            "invalidate_memory",
            "correct_claim",
            "correct_claim",
            "correct_claim",
            "correct_relationship"
        ]
    );
    assert!(plan.actions.iter().all(|a| a.status == "applied" && a.run_id == "run"));

    let change = apply_correction_policy(&plan, &request, 99);
    assert_eq!(change.memory_invalidations, vec![(id(2), 50)]);
    assert_eq!(change.edges.len(), 1);
    assert_eq!((change.edges[0].source, change.edges[0].target), (id(1), id(2)));
    assert_eq!(change.edges[0].edge_type, EdgeType::Supersedes);
    assert_eq!(change.edges[0].label, Some("wrong".to_string()));
    assert_eq!(change.applied_at, 50);
    assert_eq!(change.lifecycle_events.len(), 2);
    assert_ne!(change.lifecycle_events[0].event_id, change.lifecycle_events[1].event_id);
    assert!(change.lifecycle_events.iter().all(|e| e.event_id.len() == 36));
    assert_eq!(change.lifecycle_events[0].event_type, "corrected");
    assert_eq!(change.lifecycle_events[1].memory_id, id(1));
    let last = &change.lifecycle_events[1].payload;
    assert!(matches!(field(last, "corrected_claim_count"), Field::Count(3)));
    let report = plan.report();
    assert_eq!((report.run_id.as_str(), report.actions), ("run", 5));
}

#[test]
fn a_correction_without_targets_looks_for_candidates() {
    let request = CorrectionRequest::new(id(1));
    let mut found = rows();
    assert!(needs_candidates(&request, &found));
    let row = |name: &str, status: &str, evidence: Vec<MemoryId>| CandidateRow {
        id: name.to_string(),
        status: status.to_string(),
        evidence,
    };
    found.candidate_claims = vec![
        row("c3", "active", vec![id(7)]),
        row("c2", "active", vec![id(7), id(1)]),
        row("c1", "corrected", vec![id(7)]),
        row("c3", "active", vec![id(7)]),
    ];
    found.candidate_relationships = vec![row("r1", "active", Vec::new())];
    let plan = build_correction_plan_at(&request, &found, false, "run".to_string(), 50);
    assert!(plan.affected.memory_ids.is_empty());
    assert_eq!(plan.affected.claim_ids, texts(&["c3"]));
    assert_eq!(plan.affected.relationship_ids, texts(&["r1"]));
    assert_eq!((plan.run.mode, plan.run.status), ("preview", "planned"));
    assert_eq!(plan.run.completed_at, None);
    assert_eq!(plan.actions[0].action_type, "would_correct_claim");
    assert_eq!(plan.actions[0].status, "planned");
    assert!(matches!(&plan.run.scope, PolicyScope::Correction { new_memory_id, .. }
        if *new_memory_id == id(1)));
    assert!(matches!(&plan.run.result, PolicyResult::Affected(a)
        if a.claim_ids == texts(&["c3"])));
}

fn facts() -> ScopeFacts {
    ScopeFacts::Entities(vec![EntityFacts {
        entity_id: "e1".to_string(),
        memories: vec![MemoryFacts {
            memory_id: id(3),
            claim_ids: texts(&["c2"]),
            relationship_ids: texts(&["r2"]),
        }],
        claims: vec![EvidencedRow { id: "c1".to_string(), evidence: vec![id(4), id(3)] }],
        relationships: vec![EvidencedRow { id: "r2".to_string(), evidence: vec![id(2)] }],
    }])
}

#[test]
fn forgetting_reaches_everything_once() {
    let reached = resolve_forget_scope(&facts());
    assert_eq!(reached.entity_ids, texts(&["e1"]));
    let scope = ForgetScope::Entity("e1".to_string());
    let plan = build_forget_plan_at(scope, &facts(), ForgetMode::Hard, true, "f".to_string(), 8);
    assert_eq!(plan.affected.memory_ids, vec![id(2), id(3), id(4)]);
    assert_eq!(plan.affected.claim_ids, texts(&["c1", "c2"]));
    assert_eq!(plan.affected.relationship_ids, texts(&["r2"]));
    assert_eq!((plan.run.policy, plan.run.mode), ("forget", "hard"));
    let kinds: Vec<&str> = plan.actions.iter().map(|a| a.action_type.as_str()).collect();
    assert_eq!(kinds[0], "forget_memory");
    assert_eq!(kinds[3..], ["forget_claim", "forget_claim", "forget_relationship", "forget_entity"]);
    assert_eq!(plan.actions[0].target_id, Some(id_text(&id(2))));
    let change = apply_forget_policy(&plan, ForgetMode::Hard, 9);
    assert!(change.hard_delete);
    assert_eq!(change.applied_at, 8);
    assert_eq!(change.lifecycle_events.len(), 3);
    assert_eq!(change.lifecycle_events[0].event_type, "forgotten");
    assert_eq!(change.lifecycle_events[0].policy, Some("forget".to_string()));
}

#[test]
fn a_scope_says_what_is_looked_up() {
    let name = || "x".to_string();
    assert!(matches!(scope_lookup(&ForgetScope::Memory(id(3))), ScopeLookup::Memories(ids)
        if ids == vec![id(3)]));
    assert!(matches!(scope_lookup(&ForgetScope::Conversation(name())),
        ScopeLookup::ConversationMemories(c) if c == "x"));
    assert!(matches!(scope_lookup(&ForgetScope::Tag(name())), ScopeLookup::TagMemories(t)
        if t == "x"));
    assert!(matches!(scope_lookup(&ForgetScope::Entity(name())), ScopeLookup::Entities(ids)
        if ids == vec!["x"]));
    assert!(matches!(scope_lookup(&ForgetScope::Alias(name())), ScopeLookup::AliasEntities(a)
        if a == "x"));
    let one = ScopeFacts::Memories(vec![MemoryFacts {
        memory_id: id(3),
        claim_ids: texts(&["b", "a", "b"]),
        relationship_ids: Vec::new(),
    }]);
    let plan = build_forget_plan(ForgetScope::Memory(id(3)), &one, ForgetMode::Soft, true, 8);
    assert_eq!(plan.affected.memory_ids, vec![id(3)]);
    assert_eq!(plan.affected.claim_ids, texts(&["a", "b"]));
    assert!(plan.affected.entity_ids.is_empty());
}

#[test]
fn a_preview_of_forgetting_names_the_same_rows() {
    let scope = || ForgetScope::Entity("e1".to_string());
    let planned = build_forget_plan(scope(), &facts(), ForgetMode::Soft, false, 8);
    let applied = build_forget_plan(scope(), &facts(), ForgetMode::Soft, true, 8);
    assert_eq!(planned.affected.memory_ids, applied.affected.memory_ids);
    assert_eq!(planned.affected.claim_ids, applied.affected.claim_ids);
    assert_eq!(planned.actions.len(), applied.actions.len());
    assert_eq!((planned.run.mode, applied.run.mode), ("preview", "soft"));
    assert_eq!(planned.actions[0].action_type, "would_forget_memory");
    assert_ne!(planned.run.run_id, applied.run.run_id);
    assert!(!apply_forget_policy(&planned, ForgetMode::Soft, 11).hard_delete);
    assert_eq!(apply_forget_policy(&planned, ForgetMode::Soft, 11).applied_at, 11);
}

#[test]
fn decay_changes_what_it_is_told_to() {
    let memories = vec![memory(1, 0.5), memory(2, 0.6)];
    let run = apply_decay_policy_at(memories, &vec![None, Some(single(0.4))], "d".to_string(), 70);
    assert_eq!(run.updates.len(), 1);
    assert_eq!(run.updates[0].salience, single(0.4));
    assert_eq!(run.affected.memory_ids, vec![id(2)]);
    assert_eq!(run.actions[0].action_type, "decay_memory");
    assert!(matches!(field(&run.actions[0].before, "salience"), Field::Real(x)
        if *x == single(0.6)));
    assert!(matches!(field(&run.lifecycle_events[0].payload, "applied_at"), Field::Count(70)));
    assert_eq!(run.lifecycle_events[0].event_type, "decayed");
    assert!(matches!(run.run.result, PolicyResult::MemoryCount(1)));
}

#[test]
fn a_memory_is_archived_once() {
    let archived = archive_memory(memory(1, 0.5));
    assert!(memory_is_archived(&archived));
    assert_eq!(archived.salience, single(0.02));
    assert_eq!(archive_memory(memory(1, 0.01)).salience, single(0.01));
    let memories = vec![archived, memory(2, 0.5), memory(3, 0.5), memory(4, 0.5)];
    let decisions = vec![
        ArchivalDecision::Archive,
        ArchivalDecision::Delete,
        ArchivalDecision::Keep,
        ArchivalDecision::Consolidate(vec![id(1)]),
    ];
    let run = apply_archive_policy_at(memories, &decisions, "a".to_string(), 3);
    assert_eq!(run.affected.memory_ids, vec![id(2)]);
    assert!(memory_is_archived(&run.updates[0]));
    assert!(matches!(field(&run.actions[0].after, "tags"), Field::List(t)
        if *t == texts(&["archived"])));
    assert!(matches!(field(&run.actions[0].before, "tags"), Field::List(t) if t.is_empty()));
    assert_eq!(run.lifecycle_events[0].reason, Some("archival_policy_applied".to_string()));
}
