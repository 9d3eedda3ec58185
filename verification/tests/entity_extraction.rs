//! Deterministic entity linking and the validation of extraction batches.
use mentedb::entity_extraction::{
    aliases_for, canonicalize_phrase, field_value, first_structured_value, normalize_type,
    split_structured_list, take_until_boundary, trim_context_prefix, trim_section_prefix,
    EntityAccumulator, EntityExtractionConfig, ExtractedEntity, RuleBasedEntityExtractor,
};
use mentedb::extraction_jobs::{
    require_known, require_non_empty, require_object, validate_claim, validate_confidence,
    validate_extraction_batch, validate_json_object, validate_relationship, validate_run,
    validate_span, validate_time_bounds, ValidatedExtractionBatch,
};
use mentedb::float::Single;
use mentedb::json::JsonKind;
use mentedb::memory::{AgentId, MemoryId, MemoryNode, MemoryType, MenteError};
use mentedb::records::{
    ClaimEntityLink, ClaimEvidence, ClaimRecord, EntityRelationship, ExtractionRun,
    RelationshipEvidence,
};

fn single(x: f32) -> Single {
    Single::from_bits(x.to_bits())
}

fn message(e: MenteError) -> String {
    match e {
        MenteError::InvalidInput(m) => m,
        MenteError::Storage(m) => m,
        MenteError::Query(m) => m,
        MenteError::Serialization(m) => m,
        other => format!("{other:?}"),
    }
}

fn has(entities: &[ExtractedEntity], canonical: &str, entity_type: &str) -> bool {
    entities
        .iter()
        .any(|e| e.canonical == canonical && e.entity_type == entity_type)
}

#[test]
fn links_only_explicit_structured_entities() {
    let extractor = RuleBasedEntityExtractor::new(EntityExtractionConfig::default());
    let mut node = MemoryNode::new(
        AgentId::nil(),
        MemoryType::Semantic,
        "Name: Pratap.\nProject Synapse is a Flutter app with Google Workspace OAuth.".to_string(),
        vec![single(1.0), single(0.0)],
    );
    node.tags = vec!["profile".to_string(), "projects".to_string()];

    let entities = extractor.extract_memory(&node);
    assert!(has(&entities, "Pratap", "person"));
    assert!(has(&entities, "Synapse", "project"));
    assert!(!has(&entities, "Google Workspace OAuth", "technology"));
}

#[test]
fn links_explicit_tags_and_structured_stack_fields() {
    let extractor = RuleBasedEntityExtractor::new(EntityExtractionConfig::default());
    let entities = extractor.extract_text(
        "Core stack: Flutter with Dart, TypeScript, Supabase, and PostgreSQL.",
        &vec![
            "entity:synapse".to_string(),
            "entity_type:project".to_string(),
        ],
    );
    assert!(has(&entities, "Synapse", "project"));
    assert!(has(&entities, "Flutter", "technology"));
    assert!(has(&entities, "PostgreSQL", "technology"));
}

#[test]
fn extraction_is_sorted_and_bounded() {
    let mut config = EntityExtractionConfig::default();
    config.max_entities_per_memory = 2;
    let extractor = RuleBasedEntityExtractor::new(config);
    let entities = extractor.extract_text(
        "Name: Pratap.\nCore stack: Flutter, Dart, TypeScript",
        &vec!["entity:Zed".to_string()],
    );
    assert_eq!(entities.len(), 2);
    assert_eq!(entities[0].canonical, "Zed");
    assert!(!entities[0].confidence.lt(entities[1].confidence));
}

#[test]
fn disabled_extraction_finds_nothing() {
    let mut config = EntityExtractionConfig::default();
    config.enabled = false;
    let extractor = RuleBasedEntityExtractor::new(config);
    assert!(extractor
        .extract_text("Name: Pratap.", &vec!["entity:Zed".to_string()])
        .is_empty());
    assert!(extractor.extract_query("Name: Pratap").is_empty());
}

#[test]
fn accumulator_merges_mentions_of_one_entity() {
    let mut acc = EntityAccumulator::new(EntityExtractionConfig::default());
    for confidence in [0.6, 0.9] {
        acc.add(ExtractedEntity {
            canonical: "Synapse".to_string(),
            entity_type: "project".to_string(),
            aliases: vec!["synapse".to_string()],
            role: None,
            confidence: single(confidence),
            evidence: None,
        });
    }
    acc.add(ExtractedEntity {
        canonical: "Weak".to_string(),
        entity_type: "project".to_string(),
        aliases: Vec::new(),
        role: None,
        confidence: single(0.5),
        evidence: None,
    });
    let out = acc.finish();
    assert_eq!(out.len(), 1);
    assert_eq!(out[0].confidence, single(0.9));
    assert_eq!(out[0].aliases, vec!["synapse".to_string()]);
}

#[test]
fn phrases_are_canonicalized() {
    assert_eq!(canonicalize_phrase("synapse").as_deref(), Some("Synapse"));
    assert_eq!(
        canonicalize_phrase(" google   workspace. ").as_deref(),
        Some("Google Workspace")
    );
    assert_eq!(
        canonicalize_phrase("\"PostgreSQL\"").as_deref(),
        Some("PostgreSQL")
    );
    assert_eq!(
        canonicalize_phrase("Project Synapse").as_deref(),
        Some("Synapse")
    );
    assert_eq!(canonicalize_phrase("Name Pratap").as_deref(), Some("Pratap"));
    assert_eq!(canonicalize_phrase("   "), None);
    assert_eq!(canonicalize_phrase("123"), None);
}

#[test]
fn case_makes_no_second_entity() {
    let extractor = RuleBasedEntityExtractor::new(EntityExtractionConfig::default());
    let tags = ["entity:Synapse", "entity:SYNAPSE", "entity:synapse", "entity:Pratap"];
    let tags: Vec<String> = tags.iter().map(|t| t.to_string()).collect();
    let entities = extractor.extract_text("", &tags);
    assert_eq!(entities.len(), 2);
    let mut names: Vec<&str> = entities.iter().map(|e| e.canonical.as_str()).collect();
    names.sort();
    assert_eq!(names, vec!["Pratap", "Synapse"]);
}

#[test]
fn small_text_rules() {
    assert_eq!(field_value(" NAME : Pratap ", "name"), Some("Pratap"));
    assert_eq!(field_value("Name Pratap", "name"), None);
    assert_eq!(field_value("Names: Pratap", "name"), None);
    assert_eq!(first_structured_value("Pratap. He codes."), "Pratap");
    assert_eq!(first_structured_value("Pratap..."), "Pratap");
    assert_eq!(take_until_boundary("Synapse is an app"), "Synapse");
    assert_eq!(take_until_boundary("Synapse uses Flutter"), "Synapse");
    assert_eq!(take_until_boundary("Synapse includes a CLI"), "Synapse");
    assert_eq!(take_until_boundary("Synapse"), "Synapse");
    assert_eq!(trim_section_prefix(" [Profile] Name: P "), "Name: P");
    assert_eq!(trim_section_prefix(" [Profile Name: P "), "[Profile Name: P");
    assert_eq!(trim_context_prefix("[x] User: hello "), "hello");
    assert_eq!(trim_context_prefix("Assistant: hi"), "hi");
    assert_eq!(trim_context_prefix("user: hi"), "user: hi");
    assert_eq!(normalize_type(" Open Source Project "), "open_source_project");
    assert_eq!(normalize_type("open_source_project"), "open_source_project");
    assert_eq!(normalize_type("OPEN source PROJECT\t"), "open_source_project");
    assert_eq!(normalize_type("\u{2003}Über Ort\u{a0}"), "über_ort");
    assert_eq!(
        split_structured_list("Flutter with Dart, TypeScript, Supabase, and PostgreSQL."),
        vec!["Flutter", "Dart", "TypeScript", "Supabase", "PostgreSQL"]
    );
    assert_eq!(
        aliases_for("google workspace.", "Google Workspace", 8),
        vec!["google workspace", "Google Workspace"]
    );
    assert_eq!(aliases_for("A B", "A B", 1), vec!["A B"]);
    assert!(aliases_for("A B", "A B", 0).is_empty());
}

#[test]
fn validates_minimal_batch() {
    let memory_id = MemoryId::new();
    let run = ExtractionRun::new("claim_extractor", "v1");
    let claim = ClaimRecord::new("Pratap uses Flutter", "fact");
    let claim_id = claim.claim_id.clone();
    let mut evidence = ClaimEvidence::new(&claim_id, memory_id);
    evidence.span_start = Some(0);
    evidence.span_end = Some(20);

    validate_extraction_batch(&ValidatedExtractionBatch {
        run,
        claims: vec![claim],
        claim_entities: Vec::new(),
        claim_evidence: vec![evidence],
        relationships: Vec::new(),
        relationship_evidence: Vec::new(),
    })
    .unwrap();
}

#[test]
fn rejects_evidence_for_missing_claim() {
    let run = ExtractionRun::new("claim_extractor", "v1");
    let evidence = ClaimEvidence::new("missing", MemoryId::new());
    let err = validate_extraction_batch(&ValidatedExtractionBatch {
        run,
        claims: Vec::new(),
        claim_entities: Vec::new(),
        claim_evidence: vec![evidence],
        relationships: Vec::new(),
        relationship_evidence: Vec::new(),
    })
    .unwrap_err();
    assert!(message(err).contains("unknown claim_id"));
}

#[test]
fn rejects_links_and_relationship_evidence_without_a_record() {
    let mut batch = ValidatedExtractionBatch {
        run: ExtractionRun::new("claim_extractor", "v1"),
        claims: Vec::new(),
        claim_entities: vec![ClaimEntityLink {
            claim_id: "missing".to_string(),
            entity_id: "e".to_string(),
            role: "subject".to_string(),
            confidence: single(1.0),
        }],
        claim_evidence: Vec::new(),
        relationships: Vec::new(),
        relationship_evidence: Vec::new(),
    };
    assert!(validate_extraction_batch(&batch).is_err());
    batch.claim_entities.clear();
    batch
        .relationship_evidence
        .push(RelationshipEvidence::new("missing", MemoryId::new()));
    let err = validate_extraction_batch(&batch).unwrap_err();
    assert!(message(err).contains("unknown relationship_id"));
}

#[test]
fn each_rule_of_validation_reports() {
    assert!(require_non_empty("x", "field").is_ok());
    assert!(message(require_non_empty("  ", "field").unwrap_err()).contains("field must not be empty"));
    assert!(require_known(true, "a", "record", "field").is_ok());
    assert!(require_known(false, "a", "record", "field").is_err());
    assert!(validate_confidence(single(0.0), "c").is_ok());
    assert!(validate_confidence(single(1.0), "c").is_ok());
    for bad in [1.5f32, -0.1, f32::NAN, f32::INFINITY] {
        let err = validate_confidence(single(bad), "c").unwrap_err();
        assert!(message(err).contains("c must be finite and between 0 and 1"));
    }
    assert!(validate_span(Some(0), Some(20), "span").is_ok());
    assert!(validate_span(Some(5), None, "span").is_ok());
    assert!(validate_span(Some(5), Some(4), "span").is_err());
    assert!(validate_time_bounds(Some(1), Some(2), "t").is_ok());
    assert!(validate_time_bounds(Some(3), Some(2), "t").is_err());
    assert!(validate_json_object("{\"a\": 1}", "json").is_ok());
    assert!(message(validate_json_object("[]", "json").unwrap_err())
        .contains("json must be a JSON object"));
    assert!(validate_json_object("{", "json").is_err());
    assert!(require_object(Ok(JsonKind::Object), "json").is_ok());
    assert!(require_object(Ok(JsonKind::Null), "json").is_err());
    assert!(require_object(Err("bad".to_string()), "json").is_err());
}

#[test]
fn each_record_is_validated() {
    let mut run = ExtractionRun::new("claim_extractor", "v1");
    assert!(validate_run(&run).is_ok());
    run.output_json = "1".to_string();
    assert!(validate_run(&run).is_err());
    let mut claim = ClaimRecord::new("text", "fact");
    assert!(validate_claim(&claim).is_ok());
    claim.confidence = single(2.0);
    assert!(validate_claim(&claim).is_err());
    let mut relationship = EntityRelationship::new("a", "b", "uses");
    assert!(validate_relationship(&relationship).is_ok());
    relationship.relation_type = " ".to_string();
    assert!(validate_relationship(&relationship).is_err());
}
