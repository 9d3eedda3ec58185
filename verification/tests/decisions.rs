//! Identifiers, columns, search, recall and the life of a memory.
use mentedb::clock::{now_us, timestamp_of};
use mentedb::codec::{
    count_text, decode_edge, decode_memory, effective_dimension, encode_edge, encode_memory,
    edge_type_str, memory_type_str, needs_index, parse_count, parse_edge_type, parse_memory_type,
    time_from_column, time_to_column, usize_to_i64,
};
use mentedb::entity_extraction::EntityExtractionConfig;
use mentedb::float::Single;
use mentedb::graph::neighbors;
use mentedb::hybrid::HybridSearch;
use mentedb::ids::{id_text, parse_id, parse_id_or_nil, parse_optional_memory_id};
use mentedb::lifecycle::{
    apply_inferred_action, check_cluster, consolidate_sources, consolidated_memory,
    evaluate_archival, evaluate_archival_batch, execute_plan, inference_candidates, order_scored, provision_batch,
    provision_one, rebuild_dimension, with_confidence, with_content, with_salience,
    ArchivalDecision, Effect, InferredAction, PlanAction, QueryPlan,
};
use mentedb::memory::{
    AgentId, Direction, EdgeType, MemoryEdge, MemoryId, MemoryNode, MemoryType, MenteError,
};
use mentedb::query::{candidates_query, collect_ids, subgraph_query, tags_query};
use mentedb::recall::{
    boost_confidence, boosted_memories, considered_links, finish_recall, forget, found_memory,
    fuse_lists, invalidate_memory, is_recallable, memory_matches_tags, memory_matches_time_range,
    merge_recall, query_aliases, rank_merged, rank_recall, recall_aliases, recall_fetch, strongest_boosts,
    IncomingEdge, RecallFacts, RecallHit,
};
use mentedb::records::MemoryEntityLink;
use mentedb::search::{
    candidate_set, fetch_limit, finish_search, fts_rows, fuse_hits, keep_candidates, knn_rows,
    knn_runs, nearest_ids, parse_tags_json, rank_hits, salience_for_score, stale_traces, tags_json,
    time_windows, trace_hits, ScoredHit, SearchRequest,
};
use mentedb::storage::{scan_all_memories, stored_ids};
use mentedb::text::trim;
use mentedb::writes::{role_column, role_from_column};

fn single(x: f32) -> Single {
    Single::from_bits(x.to_bits())
}

fn id(n: u128) -> MemoryId {
    MemoryId { value: n }
}

fn hit(n: u128, score: f32) -> ScoredHit {
    ScoredHit { id: id(n), score: single(score) }
}

fn texts(items: &[&str]) -> Vec<String> {
    items.iter().map(|s| s.to_string()).collect()
}

fn node(n: u128, content: &str) -> MemoryNode {
    MemoryNode::at(
        id(n),
        AgentId { value: 7 },
        MemoryType::Semantic,
        content.to_string(),
        Vec::new(),
        100,
    )
}

// --- identifiers and the clock ----------------------------------------------

#[test]
fn ids_survive_their_text() {
    let a = id(0x0123_4567_89ab_cdef_0123_4567_89ab_cdef);
    assert_eq!(id_text(&a), "01234567-89ab-cdef-0123-456789abcdef");
    assert_eq!(parse_id::<MemoryId>(&id_text(&a)).unwrap(), a);
    assert_eq!(
        parse_id::<MemoryId>("01234567-89AB-CDEF-0123-456789ABCDEF").unwrap(),
        a
    );
    assert_eq!(id_text(&MemoryId::nil()), "00000000-0000-0000-0000-000000000000");
    assert_eq!(parse_id_or_nil::<MemoryId>("not a uuid"), MemoryId::nil());
    assert_eq!(parse_optional_memory_id(&Some(id_text(&a))), Some(a));
    assert_eq!(parse_optional_memory_id(&Some("x".to_string())), None);
    assert_eq!(parse_optional_memory_id(&None), None);
}

#[test]
fn a_malformed_id_is_a_storage_error() {
    let complaint = match parse_id::<MemoryId>("not a uuid") {
        Err(MenteError::Storage(m)) => m,
        other => panic!("{other:?}"),
    };
    assert_eq!(complaint, uuid::Uuid::parse_str("not a uuid").unwrap_err().to_string());
}

#[test]
fn new_ids_differ_and_have_the_version() {
    let (a, b) = (MemoryId::new(), MemoryId::new());
    assert_ne!(a, b);
    assert_eq!(id_text(&a).as_bytes()[14], b'4');
    assert!(parse_id::<MemoryId>(&id_text(&a)).is_ok());
}

#[test]
fn the_clock_counts_microseconds() {
    assert!(now_us() > 1_600_000_000_000_000);
    assert!(now_us() < 32_000_000_000_000_000);
    assert_eq!(timestamp_of(None), 0);
    assert_eq!(timestamp_of(Some(5)), 5);
    assert_eq!(timestamp_of(Some((1 << 64) + 3)), 3);
}

// --- columns ----------------------------------------------------------------

#[test]
fn times_keep_their_bits() {
    assert_eq!(time_to_column(5), 5);
    assert_eq!(time_to_column(u64::MAX), -1);
    assert_eq!(time_from_column(-1), u64::MAX);
    assert_eq!(time_from_column(i64::MIN), 1 << 63);
}

#[test]
fn counts_have_a_signed_width() {
    assert_eq!(usize_to_i64(7).unwrap(), 7);
    let expected = i64::try_from(usize::MAX).unwrap_err().to_string();
    assert!(matches!(usize_to_i64(usize::MAX), Err(MenteError::Storage(m)) if m == expected));
    assert_eq!(count_text(0), "0");
    assert_eq!(count_text(1536), "1536");
    assert_eq!(parse_count("1536"), Some(1536));
    assert_eq!(parse_count("+12"), Some(12));
    for bad in ["", "+", "-1", "1x", " 1", "99999999999999999999999"] {
        assert_eq!(parse_count(bad), bad.parse::<usize>().ok(), "{bad}");
    }
}

#[test]
fn a_stored_dimension_wins_over_the_hint() {
    assert_eq!(effective_dimension(&None, 3), 3);
    assert_eq!(effective_dimension(&Some("2".to_string()), 3), 2);
    assert_eq!(effective_dimension(&Some("0".to_string()), 3), 3);
    assert_eq!(effective_dimension(&Some("two".to_string()), 3), 3);
    assert!(needs_index(0, 2));
    assert!(!needs_index(2, 2));
    assert!(!needs_index(2, 0));
}

#[test]
fn names_of_types_are_read_back() {
    for t in [
        MemoryType::Episodic,
        MemoryType::Semantic,
        MemoryType::Procedural,
        MemoryType::AntiPattern,
        MemoryType::Reasoning,
        MemoryType::Correction,
    ] {
        assert_eq!(parse_memory_type(memory_type_str(t)), t);
    }
    for t in [
        EdgeType::Caused,
        EdgeType::Before,
        EdgeType::Related,
        EdgeType::Contradicts,
        EdgeType::Supports,
        EdgeType::Supersedes,
        EdgeType::Derived,
        EdgeType::PartOf,
    ] {
        assert_eq!(parse_edge_type(edge_type_str(t)), t);
    }
    assert_eq!(parse_memory_type("unknown"), MemoryType::Episodic);
    assert_eq!(parse_edge_type("unknown"), EdgeType::Related);
    assert_eq!(edge_type_str(EdgeType::PartOf), "PartOf");
}

#[test]
fn rows_are_read_back() {
    let mut m = node(1, "text");
    m.embedding = vec![single(1.5), single(-2.0)];
    m.valid_until = Some(u64::MAX);
    let row = encode_memory(&m);
    assert_eq!(row.valid_until, Some(-1));
    assert_eq!(row.embedding.as_ref().unwrap().len(), 8);
    let back = decode_memory(row, texts(&["a"]));
    assert_eq!(back.id, m.id);
    assert_eq!(back.agent_id, m.agent_id);
    assert_eq!(back.embedding, m.embedding);
    assert_eq!(back.valid_until, m.valid_until);
    assert_eq!(back.tags, texts(&["a"]));
    assert!(encode_memory(&node(2, "none")).embedding.is_none());
    let read = |attributes: &str| {
        let mut row = encode_memory(&node(3, "x"));
        row.attributes = attributes.to_string();
        decode_memory(row, Vec::new()).attributes
    };
    assert_eq!(read(r#"{"a": 1}"#), r#"{"a": 1}"#);
    assert_eq!(read("{}"), "{}");
    assert_eq!(read("no object"), "{}");
    assert_eq!(read("[1]"), "{}");
    assert_eq!(read(""), "{}");

    let e = MemoryEdge::plain(
        id(1),
        id(2),
        EdgeType::Supports,
        single(0.25),
        9,
        Some("why".to_string()),
    );
    let back = decode_edge(encode_edge(&e));
    assert_eq!((back.source, back.target), (id(1), id(2)));
    assert_eq!(back.label, Some("why".to_string()));
    assert_eq!(back.weight, single(0.25));

    assert_eq!(role_column(&None), "");
    assert_eq!(role_from_column(String::new()), None);
    assert_eq!(role_from_column("subject".to_string()), Some("subject".to_string()));
}

#[test]
fn lists_of_tags_are_json() {
    let tags = Some(texts(&["a", "say \"hi\"", "ü"]));
    let json = tags_json(&tags).unwrap();
    assert_eq!(json, "[\"a\",\"say \\\"hi\\\"\",\"ü\"]");
    assert_eq!(parse_tags_json(&json), tags.unwrap());
    assert_eq!(tags_json(&None).unwrap(), "[]");
    assert!(parse_tags_json("{}").is_empty());
    assert!(parse_tags_json("[1]").is_empty());
}

// --- statements -------------------------------------------------------------

#[test]
fn statements_have_a_mark_for_each_value() {
    let tags = texts(&["x", "y", "x"]);
    let all = tags_query(&tags, false).unwrap();
    assert_eq!(all.render().matches('?').count(), all.values.len());
    assert_eq!(all.values.len(), 3);
    let any = tags_query(&tags, true).unwrap();
    assert_eq!(any.render().matches('?').count(), any.values.len());
    let types = Some(vec![EdgeType::Caused, EdgeType::Before]);
    let reach = subgraph_query(&vec![id(1), id(2)], 3, &types).unwrap();
    assert_eq!(reach.values.len(), 5);
    assert_eq!(reach.render().matches('?').count(), 5);
    let near = candidates_query(&vec![id(1), id(2)], 4).unwrap();
    assert_eq!(near.render().matches('?').count(), 2);
    assert!(candidates_query(&vec![id(1)], 0).is_none());
    assert!(candidates_query(&Vec::new(), 4).is_none());
}

#[test]
fn ids_of_rows_are_distinct() {
    let rows = vec![id_text(&id(1)), "bad".to_string(), id_text(&id(1)), "worse".to_string()];
    assert_eq!(collect_ids(&rows), vec![id(1), MemoryId::nil()]);
}

// --- graph ------------------------------------------------------------------

#[test]
fn neighbors_lie_at_the_other_end() {
    let e = |s: u128, t: u128, k: EdgeType| MemoryEdge::plain(id(s), id(t), k, single(1.0), 0, None);
    let edges = vec![
        e(1, 2, EdgeType::Related),
        e(3, 1, EdgeType::Supports),
        e(1, 2, EdgeType::Caused),
        e(1, 1, EdgeType::Related),
    ];
    assert_eq!(neighbors(&edges, id(1), &None, Direction::Both), vec![id(2), id(3), id(1)]);
    let none = Some(Vec::new());
    assert!(neighbors(&edges, id(1), &none, Direction::Both).is_empty());
}

// --- search -----------------------------------------------------------------

#[test]
fn a_search_fetches_more_than_it_returns() {
    assert_eq!(fetch_limit(5, 4), 20);
    assert_eq!(fetch_limit(5, 0), 5);
    assert_eq!(fetch_limit(usize::MAX, 2), usize::MAX);
    assert!(knn_runs(1, 2, 2));
    assert!(!knn_runs(0, 2, 2));
    assert!(!knn_runs(1, 0, 2));
    assert!(!knn_runs(1, 2, 0));
}

#[test]
fn filters_intersect() {
    let both = candidate_set(Some(vec![id(1), id(2)]), Some(vec![id(2), id(3)]));
    assert_eq!(both, Some(vec![id(2)]));
    assert_eq!(candidate_set(Some(vec![id(1)]), None), Some(vec![id(1)]));
    assert_eq!(candidate_set(None, Some(vec![id(3)])), Some(vec![id(3)]));
    assert_eq!(candidate_set(None, None), None);
}

fn request(k: usize, text: Option<&str>) -> SearchRequest {
    SearchRequest {
        embedding_len: 2,
        query_text: text.map(|t| t.to_string()),
        tags: None,
        tags_or: false,
        time_range: None,
        k,
    }
}

#[test]
fn a_search_goes_through_its_states() {
    assert!(HybridSearch::begin(request(0, None), 4).is_none());
    let mut blank = request(3, None);
    blank.embedding_len = 0;
    assert!(HybridSearch::begin(blank, 4).is_none());

    let search = HybridSearch::begin(request(1, Some("q")), 4).unwrap();
    assert_eq!(search.fetch_k, 4);
    let search = search.filtered(Some(vec![id(1), id(2)]), Some(vec![id(2), id(1)]));
    assert!(search.reads_hits() && search.reads_text());
    let search = search.found(vec![id(1)], vec![id(2), id(3)]);
    assert_eq!(search.candidate_count, 3);
    assert_eq!(search.hits.len(), 2);
    let outcome = search.scored(&vec![single(0.1), single(0.2)]);
    assert_eq!(outcome.results, vec![hit(2, 0.2)]);
    let (header, rows) = outcome.trace().unwrap();
    assert_eq!((header.k, header.fetch_k, header.candidate_count), (1, 4, 3));
    assert_eq!(header.tags_json, "[]");
    assert_eq!((rows[0].rank, rows[0].vector_rank, rows[0].bm25_rank), (1, None, Some(1)));
}

#[test]
fn a_search_reads_only_what_it_wants() {
    let search = HybridSearch::begin(request(2, Some("q")), 4).unwrap();
    let search = search.filtered(Some(Vec::new()), None);
    assert!(!search.reads_hits() && !search.reads_text());
    let outcome = search.found(vec![id(1)], vec![id(2)]).scored(&Vec::new());
    assert!(outcome.results.is_empty() && outcome.vector_hits.is_empty());
    assert_eq!(outcome.candidate_count, 0);

    let search = HybridSearch::begin(request(2, Some("")), 4).unwrap().filtered(None, None);
    assert!(search.reads_hits() && !search.reads_text());
    let search = search.found(vec![id(1)], vec![id(2)]);
    assert!(search.text_hits.is_empty());
    assert_eq!(search.hits.len(), 1);
}

#[test]
fn windows_cover_a_range_of_times() {
    let covered = |start: u64, end: u64, t: u64| -> bool {
        let v = time_to_column(t);
        time_windows(start, end).iter().any(|w| w.from <= v && v <= w.to)
    };
    let half = 1u64 << 63;
    for (start, end) in [(0, 10), (5, half + 5), (half, u64::MAX), (0, u64::MAX), (9, 3)] {
        for t in [0, 5, 9, 10, half - 1, half, half + 5, half + 6, u64::MAX] {
            assert_eq!(covered(start, end, t), start <= t && t <= end, "{start} {end} {t}");
        }
    }
}

#[test]
fn rows_of_a_search_become_ids() {
    let rows = vec![Some(id_text(&id(4))), None, Some("bad".to_string()), Some(id_text(&id(5)))];
    assert_eq!(knn_rows(&rows), vec![(0, id(4)), (3, id(5))]);
    assert!(fts_rows(&rows).is_empty());
    let read = vec![Some(id_text(&id(4))), Some("bad".to_string())];
    assert_eq!(fts_rows(&read), vec![id(4), MemoryId::nil()]);
}

#[test]
fn hits_are_fused_by_rank() {
    let fused = fuse_hits(&vec![id(1), id(2)], &vec![id(2), id(3)]);
    let parts: Vec<(MemoryId, Vec<usize>)> =
        fused.iter().map(|h| (h.id, h.ranks.clone())).collect();
    assert_eq!(parts, vec![(id(1), vec![0]), (id(2), vec![1, 0]), (id(3), vec![1])]);
    let kept = keep_candidates(fused, &Some(vec![id(3), id(1)]));
    assert_eq!(kept.iter().map(|h| h.id).collect::<Vec<_>>(), vec![id(1), id(3)]);
    let best = finish_search(&kept, &vec![single(0.1), single(0.2)], 1);
    assert_eq!(best, vec![hit(3, 0.2)]);
}

#[test]
fn the_highest_scores_come_first() {
    let scored = vec![hit(1, 0.25), hit(2, 0.5), hit(3, 0.25)];
    assert_eq!(rank_hits(scored.clone(), 2), vec![hit(2, 0.5), hit(1, 0.25)]);
    assert_eq!(nearest_ids(scored, 9), vec![id(2), id(1), id(3)]);
    assert_eq!(salience_for_score(None), single(0.5));
    assert_eq!(salience_for_score(Some(single(0.9))), single(0.9));
}

#[test]
fn a_trace_tells_the_ranks() {
    let scored = vec![hit(2, 0.5), hit(1, 0.4)];
    let traced = trace_hits(&scored, &vec![id(1), id(2)], &vec![id(2)]);
    assert_eq!((traced[0].rank, traced[0].vector_rank, traced[0].bm25_rank), (1, Some(2), Some(1)));
    assert_eq!((traced[1].rank, traced[1].vector_rank, traced[1].bm25_rank), (2, Some(1), None));
    let names = texts(&["new", "mid", "old"]);
    assert_eq!(stale_traces(&names, 1), texts(&["mid", "old"]));
    assert!(stale_traces(&names, 3).is_empty());
}

// --- recall -----------------------------------------------------------------

#[test]
fn filters_of_a_recall() {
    let mut m = node(1, "x");
    m.tags = texts(&["a", "b"]);
    assert!(memory_matches_tags(&m, &None, false));
    assert!(!memory_matches_tags(&m, &Some(Vec::new()), true));
    assert!(memory_matches_tags(&m, &Some(texts(&["a", "b"])), false));
    assert!(!memory_matches_tags(&m, &Some(texts(&["a", "c"])), false));
    assert!(memory_matches_tags(&m, &Some(texts(&["a", "c"])), true));
    assert!(memory_matches_time_range(&m, Some((100, 100))));
    assert!(!memory_matches_time_range(&m, Some((101, 200))));
    assert!(memory_matches_time_range(&m, None));
}

#[test]
fn a_question_names_its_runs_of_words() {
    let mut config = EntityExtractionConfig::default();
    config.max_alias_words = 2;
    config.min_phrase_chars = 2;
    assert_eq!(
        query_aliases("What is (Synapse)? Synapse...", &config),
        texts(&["what", "what is", "is", "is synapse", "synapse", "synapse synapse"])
    );
    assert!(query_aliases("1 22 333", &config).is_empty());
    assert_eq!(query_aliases("ÄRGER ok", &config), texts(&["ärger", "ärger ok", "ok"]));
    config.max_phrase_chars = 4;
    assert_eq!(query_aliases("what is", &config), texts(&["what", "is"]));

    assert!(recall_aliases(&None, &config).is_empty());
    assert!(recall_aliases(&Some("  ".to_string()), &config).is_empty());
    assert_eq!(recall_aliases(&Some("what".to_string()), &config), texts(&["what"]));
    config.recall_enabled = false;
    assert!(recall_aliases(&Some("what".to_string()), &config).is_empty());
}

#[test]
fn an_entity_boosts_what_passes_the_filters() {
    let link = |n: u128, confidence: f32| MemoryEntityLink {
        memory_id: id(n),
        entity_id: "entity:x".to_string(),
        role: None,
        confidence: single(confidence),
        evidence: None,
    };
    let tagged = |n: u128| {
        let mut m = node(n, "x");
        m.tags = texts(&["a"]);
        m
    };
    let links = vec![link(1, 0.5), link(2, 0.4), link(3, -1.0), link(4, 0.9), link(5, 0.9)];
    let memories = vec![Some(tagged(1)), None, Some(tagged(3)), Some(node(4, "no tags"))];
    let wanted = Some(texts(&["a"]));
    assert_eq!(
        boosted_memories(&links, &memories, &wanted, false, Some((0, 100))),
        vec![hit(1, 0.5), hit(3, 0.0)]
    );
    assert!(boosted_memories(&links, &memories, &wanted, true, Some((0, 99))).is_empty());
    assert_eq!(boosted_memories(&links, &memories, &None, false, None).len(), 3);
}

#[test]
fn each_memory_has_one_boost() {
    let boosts = strongest_boosts(&vec![hit(1, 0.2), hit(2, 0.1), hit(1, 0.3), hit(2, 0.05)]);
    assert_eq!(boosts, vec![hit(1, 0.3), hit(2, 0.1)]);
    assert_eq!(boost_confidence(single(-0.5)), single(0.0));
    assert_eq!(boost_confidence(single(f32::NAN)), single(0.0));
    assert_eq!(boost_confidence(single(0.5)), single(0.5));
    assert_eq!(considered_links(3, 5), 3);
    assert_eq!(considered_links(7, 5), 5);
    assert_eq!(recall_fetch(4), 12);
    let merged = merge_recall(&vec![hit(1, 0.5)], &vec![hit(2, 0.2), hit(1, 0.1)]);
    assert_eq!(merged.len(), 2);
    let expected = [
        RecallHit { id: id(1), found: Some(single(0.5)), boost: Some(single(0.1)) },
        RecallHit { id: id(2), found: None, boost: Some(single(0.2)) },
    ];
    assert_eq!(merged, expected);
}

#[test]
fn superseded_and_invalid_memories_are_left_out() {
    let facts = |edge_type: EdgeType, live: bool, valid: Option<bool>| RecallFacts {
        incoming: vec![IncomingEdge { edge_type, valid: live }],
        valid,
    };
    assert!(!is_recallable(&facts(EdgeType::Supersedes, true, Some(true))));
    assert!(!is_recallable(&facts(EdgeType::Contradicts, true, None)));
    assert!(is_recallable(&facts(EdgeType::Supersedes, false, Some(true))));
    assert!(is_recallable(&facts(EdgeType::Related, true, None)));
    assert!(!is_recallable(&facts(EdgeType::Related, true, Some(false))));
    let ranked = rank_recall(vec![hit(1, 0.1), hit(2, 0.9), hit(3, 0.5)]);
    assert_eq!(ranked, vec![hit(2, 0.9), hit(3, 0.5), hit(1, 0.1)]);
    let merged = merge_recall(&vec![hit(1, 0.5)], &vec![hit(2, 0.2)]);
    let scores = vec![single(0.5), single(0.9)];
    assert_eq!(rank_merged(&merged, &scores), vec![hit(2, 0.9), hit(1, 0.5)]);
    let all = vec![
        facts(EdgeType::Supersedes, true, Some(true)),
        facts(EdgeType::Related, true, Some(true)),
        facts(EdgeType::Related, true, None),
    ];
    assert_eq!(finish_recall(&ranked, &all, 5), vec![hit(3, 0.5), hit(1, 0.1)]);
    assert_eq!(finish_recall(&ranked, &all, 1), vec![hit(3, 0.5)]);
}

#[test]
fn several_recalls_are_fused() {
    let fused = fuse_lists(&vec![vec![id(1), id(2)], vec![id(2)]]);
    let parts: Vec<(MemoryId, Vec<usize>)> =
        fused.iter().map(|h| (h.id, h.ranks.clone())).collect();
    assert_eq!(parts, vec![(id(1), vec![0]), (id(2), vec![1, 0])]);
}

#[test]
fn a_missing_memory_is_an_error() {
    assert!(matches!(found_memory(None, id(3)), Err(MenteError::MemoryNotFound(i)) if i == id(3)));
    assert_eq!(found_memory(Some(node(3, "x")), id(3)).unwrap().id, id(3));
    assert!(matches!(
        invalidate_memory(None, id(3), 5),
        Err(MenteError::MemoryNotFound(i)) if i == id(3)
    ));
    let m = invalidate_memory(Some(node(3, "x")), id(3), 5).unwrap();
    assert_eq!(m.valid_until, Some(5));
    assert_eq!(m.content, "x");
}

// --- the life of a memory ---------------------------------------------------

#[test]
fn the_first_embedding_makes_the_index() {
    let mut a = node(1, "a");
    assert_eq!(provision_one(0, &a), None);
    a.embedding = vec![single(1.0), single(2.0)];
    assert_eq!(provision_one(0, &a), Some(2));
    assert_eq!(provision_one(3, &a), None);
    let nodes = vec![node(2, "b"), a];
    assert_eq!(provision_batch(0, &nodes), Some(2));
    assert_eq!(provision_batch(2, &nodes), None);
    assert_eq!(provision_batch(0, &vec![node(2, "b")]), None);
    assert_eq!(rebuild_dimension(4, 2), 4);
    assert_eq!(rebuild_dimension(0, 2), 2);
    assert_eq!(stored_ids(&nodes), vec![id(2), id(1)]);
    assert_eq!(scan_all_memories(Some(vec![id(2)])), vec![(id(2), id(2))]);
    assert!(scan_all_memories(None).is_empty());
}

#[test]
fn inferred_actions_have_effects() {
    let edge = |effect: &Effect| -> (MemoryId, MemoryId, EdgeType, Single, Option<String>) {
        match effect {
            Effect::Relate(e) => (e.source, e.target, e.edge_type, e.weight, e.label.clone()),
            other => panic!("{other:?}"),
        }
    };
    let created = apply_inferred_action(
        InferredAction::CreateEdge {
            source: id(1),
            target: id(2),
            edge_type: EdgeType::Supports,
            weight: single(0.5),
        },
        9,
    );
    assert_eq!(created.len(), 1);
    assert_eq!(edge(&created[0]), (id(1), id(2), EdgeType::Supports, single(0.5), None));

    let invalidated = apply_inferred_action(
        InferredAction::InvalidateMemory { memory: id(1), superseded_by: id(2), valid_until: 4 },
        9,
    );
    assert!(matches!(invalidated[0], Effect::Invalidate { memory, at: 4 } if memory == id(1)));
    assert_eq!(edge(&invalidated[1]), (id(2), id(1), EdgeType::Supersedes, single(1.0), None));

    let obsolete = apply_inferred_action(
        InferredAction::MarkObsolete { memory: id(1), superseded_by: id(2) },
        9,
    );
    assert!(matches!(obsolete[0], Effect::Invalidate { at: 9, .. }));
    assert_eq!(edge(&obsolete[1]).2, EdgeType::Supersedes);

    let flagged = apply_inferred_action(
        InferredAction::FlagContradiction {
            existing: id(1),
            new: id(2),
            reason: "no".to_string(),
        },
        9,
    );
    assert_eq!(
        edge(&flagged[0]),
        (id(2), id(1), EdgeType::Contradicts, single(1.0), Some("no".to_string()))
    );

    let confidence = apply_inferred_action(
        InferredAction::UpdateConfidence { memory: id(1), new_confidence: single(0.3) },
        9,
    );
    assert!(matches!(confidence[0], Effect::SetConfidence { confidence, .. }
        if confidence == single(0.3)));
    let spread = apply_inferred_action(
        InferredAction::PropagateBeliefChange { root: id(1), delta: single(-0.1) },
        9,
    );
    assert!(matches!(spread[0], Effect::Spread { root, .. } if root == id(1)));
    let content = apply_inferred_action(
        InferredAction::UpdateContent {
            memory: id(1),
            new_content: "new".to_string(),
            reason: "r".to_string(),
        },
        9,
    );
    assert!(matches!(&content[0], Effect::SetContent { content, .. } if content == "new"));
}

#[test]
fn inference_looks_at_other_memories() {
    let hits = vec![hit(1, 0.9), hit(2, 0.8), hit(3, 0.7)];
    assert_eq!(inference_candidates(&hits, id(2)), vec![id(1), id(3)]);
    let m = with_confidence(node(1, "x"), single(0.2));
    assert_eq!(m.confidence, single(0.2));
    assert_eq!(with_content(m, "y".to_string()).content, "y");
    assert_eq!(with_salience(node(1, "x"), single(0.1)).salience, single(0.1));
}

#[test]
fn a_cluster_is_consolidated() {
    assert!(matches!(check_cluster(1), Err(MenteError::Query(m))
        if m == "consolidation requires at least 2 memories"));
    assert!(check_cluster(2).is_ok());
    let effects = consolidate_sources(id(9), &vec![id(1), id(2)], 50);
    assert_eq!(effects.len(), 4);
    assert!(matches!(effects[0], Effect::Invalidate { memory, at: 50 } if memory == id(1)));
    assert!(matches!(&effects[1], Effect::Relate(e) if e.source == id(9)
        && e.target == id(1) && e.edge_type == EdgeType::Derived && e.weight == single(1.0)));
    assert!(matches!(effects[2], Effect::Invalidate { memory, .. } if memory == id(2)));
    let merged = consolidated_memory(
        id(9),
        &node(1, "x"),
        MemoryType::Semantic,
        "sum".to_string(),
        vec![single(1.0)],
        single(0.75),
        60,
    );
    assert_eq!(merged.agent_id, AgentId { value: 7 });
    assert_eq!(merged.confidence, single(0.75));
    assert_eq!(merged.content, "sum");
}

#[test]
fn archival_can_be_off() {
    assert!(matches!(evaluate_archival(false, ArchivalDecision::Delete), ArchivalDecision::Keep));
    assert!(matches!(evaluate_archival(true, ArchivalDecision::Delete), ArchivalDecision::Delete));
    let nodes = vec![node(1, "a"), node(2, "b")];
    let decided = || vec![ArchivalDecision::Archive, ArchivalDecision::Delete];
    let on = evaluate_archival_batch(true, &nodes, decided());
    assert!(matches!(on[1], (i, ArchivalDecision::Delete) if i == id(2)));
    let off = evaluate_archival_batch(false, &nodes, decided());
    assert!(matches!(off[0], (i, ArchivalDecision::Keep) if i == id(1)));
}

#[test]
fn a_plan_says_how_it_is_answered() {
    let tags = QueryPlan::TagScan { tags: texts(&["x"]), limit: None };
    match execute_plan(&tags) {
        PlanAction::Scan(r) => {
            assert_eq!((r.embedding_len, r.k), (0, 10));
            assert_eq!(r.tags, Some(texts(&["x"])));
            assert!(!r.tags_or && r.time_range.is_none() && r.query_text.is_none());
        }
        other => panic!("{other:?}"),
    }
    let few = QueryPlan::TagScan { tags: texts(&["x"]), limit: Some(3) };
    assert!(matches!(execute_plan(&few), PlanAction::Scan(r) if r.k == 3));
    match execute_plan(&QueryPlan::TemporalScan { start: 1, end: 2 }) {
        PlanAction::Scan(r) => {
            assert_eq!((r.time_range, r.k), (Some((1, 2)), 100));
            assert!(r.tags.is_none());
        }
        other => panic!("{other:?}"),
    }
    let near = QueryPlan::VectorSearch { query: vec![single(1.0)], k: 3 };
    assert!(matches!(execute_plan(&near), PlanAction::Search(r) if r.embedding_len == 1
        && r.k == 3 && r.tags.is_none() && r.query_text.is_none()));
    assert!(matches!(
        execute_plan(&QueryPlan::GraphTraversal { root: id(1), depth: 2 }),
        PlanAction::Traverse { depth: 2, .. }
    ));
    assert!(matches!(
        execute_plan(&QueryPlan::PointLookup { id: id(1) }),
        PlanAction::Lookup { .. }
    ));
    assert!(matches!(execute_plan(&QueryPlan::Other), PlanAction::Nothing));
    let scored = vec![hit(1, 0.1), hit(2, 0.2)];
    assert_eq!(order_scored(scored.clone(), false), scored);
    assert_eq!(order_scored(scored, true), vec![hit(2, 0.2), hit(1, 0.1)]);
}

fn tag_request(tags: &[&str], k: usize) -> SearchRequest {
    SearchRequest {
        embedding_len: 0,
        query_text: None,
        tags: Some(texts(tags)),
        tags_or: false,
        time_range: None,
        k,
    }
}

#[test]
fn a_scan_gives_what_its_filters_admit() {
    assert!(HybridSearch::begin(tag_request(&["x"], 5), 4).is_none());
    assert!(HybridSearch::scan(tag_request(&["x"], 0), 4).is_none());
    let scan = HybridSearch::scan(tag_request(&["x"], 2), 4).unwrap();
    assert_eq!(scan.fetch_k, 8);
    let scan = scan.filtered(Some(vec![id(1), id(2), id(1), id(3)]), None).scanned();
    assert_eq!(scan.hits.iter().map(|h| h.id).collect::<Vec<_>>(), vec![id(1), id(2), id(3)]);
    assert!(scan.hits.iter().all(|h| h.ranks.is_empty()));
    assert_eq!(scan.candidate_count, 3);
    let outcome = scan.scored(&vec![single(0.1), single(0.3), single(0.2)]);
    assert_eq!(outcome.results, vec![hit(2, 0.3), hit(3, 0.2)]);
    let both = HybridSearch::scan(tag_request(&["x"], 9), 1).unwrap();
    let both = both.filtered(Some(vec![id(1), id(2)]), Some(vec![id(2), id(3)])).scanned();
    assert_eq!(both.scored(&vec![single(0.1)]).results, vec![hit(2, 0.1)]);
    let none = HybridSearch::scan(tag_request(&[], 9), 1).unwrap();
    assert!(none.filtered(Some(Vec::new()), None).scanned().hits.is_empty());
    let free = HybridSearch::scan(tag_request(&[], 9), 1).unwrap();
    assert!(free.filtered(None, None).scanned().hits.is_empty());
}

#[test]
fn tracing_does_not_change_the_results() {
    let outcome = || {
        let scan = HybridSearch::scan(tag_request(&["x"], 2), 4).unwrap();
        scan.filtered(Some(vec![id(1), id(2)]), None)
            .scanned()
            .scored(&vec![single(0.1), single(0.3)])
    };
    let (plain, none) = outcome().conclude(false);
    assert!(none.is_none());
    let (traced, trace) = outcome().conclude(true);
    assert_eq!(plain, traced);
    let (header, hits) = trace.unwrap();
    assert_eq!((header.k, header.candidate_count, header.result_count), (2, 2, 2));
    assert_eq!(hits[0].memory_id, id(2));
    assert_eq!((hits[0].rank, hits[0].vector_rank, hits[0].bm25_rank), (1, None, None));
}

#[test]
fn a_memory_that_was_not_there_is_not_forgotten() {
    assert!(forget(true, id(1)).is_ok());
    assert!(matches!(forget(false, id(1)), Err(MenteError::MemoryNotFound(i)) if i == id(1)));
}

#[test]
fn single_numbers_compare_as_numbers() {
    assert!(single(-1.0).lt(single(0.5)));
    assert!(!single(-0.0).lt(single(0.0)));
    assert!(single(f32::NAN).is_nan());
    assert!(!single(f32::NAN).lt(single(1.0)));
    assert!(!single(f32::NAN).gt(single(1.0)));
    assert_eq!(single(f32::NAN).max(single(0.5)), single(0.5));
    assert_eq!(single(0.2).min(single(0.1)), single(0.1));
    assert!(single(1.0).is_unit());
    assert!(single(0.0).is_unit());
    assert!(!single(1.0001).is_unit());
    assert!(!single(f32::INFINITY).is_unit());
}

// --- text -------------------------------------------------------------------

#[test]
fn white_space_is_what_the_list_says() {
    let listed = |c: char| {
        matches!(
            c,
            '\t'..='\r'
                | ' '
                | '\u{85}'
                | '\u{a0}'
                | '\u{1680}'
                | '\u{2000}'..='\u{200a}'
                | '\u{2028}'
                | '\u{2029}'
                | '\u{202f}'
                | '\u{205f}'
                | '\u{3000}'
        )
    };
    for c in '\0'..=char::MAX {
        assert_eq!(trim(&c.to_string()).is_empty(), listed(c), "{c:?}");
    }
}
