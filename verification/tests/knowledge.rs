//! Entities, communities, enrichment and profiles.
use mentedb::config::CognitiveConfig;
use mentedb::contexts::try_entity_names_with_context;
use mentedb::enrichment::{
    community_edges, community_summaries, community_summary_at, enrichment_candidates,
    enrichment_edges, entity_communities, find_community_summary, prepare_enrichment,
    profile_facts, rewrite_memory, store_community_summary, store_user_profile, user_profile,
    EnrichmentConfig, EnrichmentState,
};
use mentedb::entities::{
    all_entity_names, apply_entity_link_resolution, build_entity_memory_map, canonical_groups,
    entity_memories, link_known_group, link_mentions, EntityLinkResolution, EntityLinkResult,
};
use mentedb::entity_extraction::ExtractedEntity;
use mentedb::float::Single;
use mentedb::memory::{
    AgentId, EdgeType, MemoryEdge, MemoryId, MemoryNode, MemoryType, MenteError,
};
use mentedb::records::EntityRecord;

fn single(x: f32) -> Single {
    Single::from_bits(x.to_bits())
}

fn id(n: u128) -> MemoryId {
    MemoryId { value: n }
}

fn texts(items: &[&str]) -> Vec<String> {
    items.iter().map(|s| s.to_string()).collect()
}

fn memory(n: u128, content: &str, tags: &[&str]) -> MemoryNode {
    let mut m = MemoryNode::at(
        id(n),
        AgentId { value: 1 },
        MemoryType::Semantic,
        content.to_string(),
        Vec::new(),
        n as u64,
    );
    m.tags = texts(tags);
    m
}

#[test]
fn names_are_normal_and_sorted() {
    let all = vec![
        memory(1, "x", &["entity: Rust ", "topic"]),
        memory(2, "y", &["entity:Go", "entity:RUST"]),
        memory(3, "z", &["entity"]),
    ];
    assert_eq!(all_entity_names(&all), texts(&["go", "rust"]));
    let found = entity_memories(all);
    assert_eq!(found.iter().map(|m| m.id).collect::<Vec<_>>(), vec![id(1), id(2)]);
}

#[test]
fn names_map_to_their_memories() {
    let all = vec![
        memory(1, "x", &["entity:Rust"]),
        memory(2, "y", &["entity:Go"]),
        memory(3, "z", &["other", "entity:rust"]),
    ];
    let map = build_entity_memory_map(&all);
    let parts: Vec<(String, Vec<MemoryId>)> =
        map.iter().map(|n| (n.name.clone(), n.ids.clone())).collect();
    assert_eq!(
        parts,
        vec![("rust".to_string(), vec![id(1), id(3)]), ("go".to_string(), vec![id(2)])]
    );
}

#[test]
fn a_merged_group_is_linked_pairwise() {
    let all = vec![
        memory(3, "x", &["entity:JS"]),
        memory(1, "y", &["entity:JavaScript"]),
        memory(2, "z", &["entity:ecmascript"]),
        memory(4, "w", &["entity:rust"]),
    ];
    let map = build_entity_memory_map(&all);
    let group = EntityLinkResolution {
        canonical: "JavaScript".to_string(),
        aliases: texts(&["JS", "javascript", "ECMAScript"]),
        confidence: single(0.9),
    };
    let linked = MemoryEdge::plain(
        id(1),
        id(2),
        EdgeType::Related,
        single(1.0),
        0,
        Some("entity_link:old".to_string()),
    );
    let plan = apply_entity_link_resolution(&map, &group, &vec![linked], 77);
    assert_eq!(plan.learned, texts(&["JS", "ECMAScript"]));
    assert_eq!(plan.members, vec![id(1), id(2), id(3)]);
    let pairs: Vec<(MemoryId, MemoryId)> =
        plan.links.iter().map(|e| (e.source, e.target)).collect();
    assert_eq!(pairs, vec![(id(1), id(3)), (id(2), id(3))]);
    assert_eq!(plan.links[0].label, Some("entity_link:javascript".to_string()));
    assert_eq!(plan.links[0].weight, single(0.9));
    assert_eq!(plan.links[0].created_at, 77);

    let again = apply_entity_link_resolution(&map, &group, &plan.links, 78);
    assert_eq!(again.links.len(), 1);
    let mut later = vec![MemoryEdge::plain(id(4), id(1), EdgeType::Before, single(1.0), 1, None)];
    later.extend(plan.links.iter().chain(again.links.iter()).map(|e| {
        MemoryEdge::plain(e.source, e.target, e.edge_type, e.weight, 2, e.label.clone())
    }));
    assert!(apply_entity_link_resolution(&map, &group, &later, 79).links.is_empty());
    let mut result = EntityLinkResult::none();
    result.count(plan.links.len(), 1);
    assert_eq!((result.linked, result.edges_created, result.ambiguous), (2, 1, 0));
}

#[test]
fn known_groups_are_linked() {
    let all = vec![
        memory(1, "x", &["entity:js"]),
        memory(2, "y", &["entity:javascript"]),
        memory(3, "z", &["entity:rust"]),
        memory(4, "w", &["entity:c"]),
    ];
    let map = build_entity_memory_map(&all);
    let canonical = Some("javascript".to_string());
    let resolved = vec![canonical.clone(), canonical, None, Some("clang".to_string())];
    let groups = canonical_groups(&map, &resolved);
    assert_eq!(groups.len(), 2);
    assert_eq!(groups[0].names, texts(&["js", "javascript"]));
    let links = link_known_group(&map, &groups[0], &Vec::new(), 5);
    assert_eq!(links.len(), 1);
    assert_eq!((links[0].source, links[0].target), (id(1), id(2)));
    assert_eq!(links[0].weight, single(1.0));
    assert!(link_known_group(&map, &groups[1], &Vec::new(), 5).is_empty());
}

#[test]
fn mentions_become_records() {
    let mention = |canonical: &str, confidence: f32, role: Option<&str>| ExtractedEntity {
        canonical: canonical.to_string(),
        entity_type: "project".to_string(),
        aliases: texts(&["syn"]),
        role: role.map(|r| r.to_string()),
        confidence: single(confidence),
        evidence: None,
    };
    let mut known = EntityRecord::at("e1".to_string(), "project", "Synapse", 3);
    known.confidence = single(0.95);
    known.attributes_json = "{\"a\":1}".to_string();
    let extracted = vec![mention("Synapse", 0.7, Some("subject")), mention("Grasp", 0.6, None)];
    let bundle = link_mentions(
        id(8),
        &extracted,
        vec![Some(known), None],
        texts(&["unused", "e2"]),
        9,
    );
    assert_eq!(bundle.entities[0].entity_id, "e1");
    assert_eq!(bundle.entities[0].confidence, single(0.95));
    assert_eq!((bundle.entities[0].created_at, bundle.entities[0].updated_at), (3, 9));
    assert_eq!(bundle.entities[0].attributes_json, "{}");
    assert_eq!(bundle.entities[1].entity_id, "e2");
    assert_eq!(bundle.entities[1].confidence, single(0.6));
    assert_eq!(bundle.aliases.len(), 2);
    assert_eq!(bundle.aliases[1].source, Some("surface_linker".to_string()));
    assert_eq!(bundle.links[0].role, Some("subject".to_string()));
    assert_eq!(bundle.links[1].role, Some("mentioned".to_string()));
    assert_eq!(bundle.links[1].memory_id, id(8));
}

#[test]
fn contexts_are_cut_and_joined() {
    let long = "a".repeat(400);
    let all = vec![
        memory(1, &long, &["entity:X"]),
        memory(2, "short", &["entity:y"]),
        memory(3, "more", &["entity:Y", "entity:z"]),
        memory(4, "ignored", &["entity:x"]),
    ];
    let found = try_entity_names_with_context(&all).unwrap();
    let parts: Vec<(&str, usize)> =
        found.iter().map(|c| (c.name.as_str(), c.context.len())).collect();
    assert_eq!(parts, vec![("x", 300), ("y", 12)]);
    assert_eq!(found[1].context, "short | more");

    let wide = vec![memory(1, &format!("{}ü", "a".repeat(299)), &["entity:x"])];
    assert!(try_entity_names_with_context(&wide).is_none());
}

#[test]
fn communities_have_at_least_two_members() {
    let all = vec![
        memory(1, &"ü".repeat(250), &["entity:Rust", "entity_type:Language"]),
        memory(2, "go", &["entity:Go", "entity_type:language"]),
        memory(3, "alone", &["entity:Paris", "entity_type:City"]),
        memory(4, "plain", &["entity:A"]),
        memory(5, "plain", &["entity:B"]),
        memory(6, "sum", &["community_summary", "entity:C", "entity_type:city"]),
    ];
    let found = entity_communities(&all);
    let parts: Vec<(&str, Vec<&str>)> = found
        .iter()
        .map(|c| (c.category.as_str(), c.members.iter().map(|m| m.name.as_str()).collect()))
        .collect();
    assert_eq!(parts, vec![("language", vec!["Rust", "Go"]), ("general", vec!["A", "B"])]);
    assert_eq!(found[0].members[0].context.chars().count(), 200);
    assert_eq!(community_summaries(all).len(), 1);
}

#[test]
fn a_community_summary_is_found_again() {
    let node = community_summary_at(id(1), AgentId { value: 2 }, "city", "text", None, 5);
    assert_eq!(node.tags, texts(&["community_summary", "community:city", "source:enrichment"]));
    assert_eq!(node.confidence, single(0.7));
    assert_eq!(node.memory_type, MemoryType::Semantic);
    let all = vec![memory(9, "x", &[]), node];
    assert_eq!(find_community_summary(&all, "city").unwrap(), Some(1));
    assert_eq!(find_community_summary(&all, "town").unwrap(), None);
    assert!(matches!(find_community_summary(&all, ""), Err(MenteError::Storage(m))
        if m == "community category cannot be empty"));

    let map = build_entity_memory_map(&vec![
        memory(3, "p", &["entity:Paris"]),
        memory(4, "q", &["entity:paris"]),
    ]);
    let edges = community_edges(&map, id(1), "city", &texts(&["Paris", "Rome"]), 6);
    assert_eq!(edges.len(), 2);
    assert_eq!((edges[1].source, edges[1].target), (id(1), id(4)));
    assert_eq!(edges[0].label, Some("community_member:city".to_string()));
    assert_eq!(edges[0].weight, single(0.8));
    assert_eq!(edges[0].edge_type, EdgeType::Derived);
}

#[test]
fn enrichment_waits_for_its_turn() {
    let mut config = EnrichmentConfig::default();
    let mut state = EnrichmentState::new();
    state.request_enrichment();
    assert!(!state.needs_enrichment(&config));
    config.enabled = true;
    assert!(state.needs_enrichment(&config));
    state.mark_enrichment_complete(12);
    assert!(!state.needs_enrichment(&config));
    assert_eq!(state.last_turn, 12);
    assert_eq!(config.max_enrichment_confidence, single(0.7));
    assert_eq!(config.min_confidence, single(0.6));
    assert_eq!(config.entity_separate_threshold, single(0.4));
    let all = CognitiveConfig::default();
    assert_eq!(all.interference_threshold, single(0.8));
    assert!(all.write_inference && !all.enrichment_config.enabled);
}

#[test]
fn candidates_are_new_episodes() {
    let episode = |n: u128, tags: &[&str]| {
        let mut m = memory(n, "x", tags);
        m.memory_type = MemoryType::Episodic;
        m
    };
    let all = vec![
        episode(9, &[]),
        episode(4, &["source:enrichment"]),
        memory(8, "x", &[]),
        episode(6, &[]),
        episode(5, &[]),
    ];
    let found = enrichment_candidates(all, 5);
    assert_eq!(found.iter().map(|m| m.id).collect::<Vec<_>>(), vec![id(6), id(9)]);
}

#[test]
fn enriched_memories_are_marked_and_capped() {
    let mut m = memory(1, "x", &["a"]);
    m.confidence = single(0.9);
    let done = prepare_enrichment(m, single(0.7));
    assert_eq!(done.tags, texts(&["a", "source:enrichment"]));
    assert_eq!(done.confidence, single(0.7));
    let mut low = memory(2, "x", &["source:enrichment"]);
    low.confidence = single(0.3);
    let done = prepare_enrichment(low, single(0.7));
    assert_eq!(done.tags, texts(&["source:enrichment"]));
    assert_eq!(done.confidence, single(0.3));
    let edges = enrichment_edges(id(1), &vec![id(5), id(6)], 3);
    assert_eq!(edges.len(), 2);
    assert_eq!(edges[1].target, id(6));
    assert_eq!(edges[1].label, Some("enrichment".to_string()));
    assert_eq!(edges[1].weight, single(0.8));
}

#[test]
fn facts_for_a_profile() {
    let mut doubtful = memory(1, "doubtful", &[]);
    doubtful.confidence = single(0.4);
    let mut how = memory(2, "how", &[]);
    how.memory_type = MemoryType::Procedural;
    how.confidence = single(0.5);
    let mut episode = memory(3, "episode", &[]);
    episode.memory_type = MemoryType::Episodic;
    let all = vec![
        doubtful,
        how,
        episode,
        memory(4, "summary", &["community_summary"]),
        memory(5, "entity", &["entity:x"]),
        memory(6, &"b".repeat(310), &[]),
    ];
    let facts = profile_facts(&all);
    assert_eq!(facts.len(), 2);
    assert_eq!(facts[0], "how");
    assert_eq!(facts[1].len(), 300);
    let many: Vec<MemoryNode> = (0..120).map(|n| memory(n, "f", &[])).collect();
    assert_eq!(profile_facts(&many).len(), 100);
}

#[test]
fn a_category_keeps_one_summary() {
    let first = store_community_summary(vec![memory(9, "x", &[])], "city", "one", None).unwrap();
    assert!(first.created);
    assert_eq!(first.node.tags[1], "community:city");
    let id = first.node.id;
    let all = vec![memory(9, "x", &[]), first.node];
    let second = store_community_summary(all, "city", "two", Some(vec![single(1.0)])).unwrap();
    assert!(!second.created);
    assert_eq!(second.node.id, id);
    assert_eq!(second.node.content, "two");
    let other = store_community_summary(vec![second.node], "town", "three", None).unwrap();
    assert!(other.created && other.node.id != id);
    assert!(matches!(store_community_summary(Vec::new(), "", "x", None),
        Err(MenteError::Storage(m)) if m == "community category cannot be empty"));
}

#[test]
fn there_is_one_profile() {
    let first = store_user_profile(vec![memory(1, "x", &[])], "likes tea", None);
    assert!(first.created);
    let created = first.node;
    assert_eq!(created.tags, texts(&["user_profile", "scope:always", "source:enrichment"]));
    assert_eq!(created.confidence, single(0.8));
    assert!(created.embedding.is_empty());
    let first = created.id;
    let all = vec![memory(1, "x", &[]), created];
    let second = store_user_profile(all, "likes coffee", Some(vec![single(1.0)]));
    assert!(!second.created);
    let updated = second.node;
    assert_eq!(updated.id, first);
    assert_eq!(updated.content, "likes coffee");
    assert_eq!(updated.embedding, vec![single(1.0)]);
    let kept = rewrite_memory(updated, "likes water", None);
    assert_eq!(kept.embedding, vec![single(1.0)]);
    let all = vec![memory(1, "x", &[]), kept];
    assert_eq!(user_profile(&all), Some(1));
    assert_eq!(user_profile(&vec![memory(1, "x", &[])]), None);
}
