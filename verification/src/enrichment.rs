//! Enrichment between conversations: which memories are looked at, what is
//! stored of the results, community summaries and the user profile.
use crate::entities::{
    any_tag_starts, first_after, first_tag_after, is_entity_memory, memories_of, NamedMemories,
};
use crate::float::Single;
use crate::ids::is_random_uuid;
use crate::keyed::{find_key, key_index, law_key_index, Keyed};
use crate::memory::{
    fresh_memory, plain_edge, AgentId, EdgeType, EdgeView, ErrorView, MemoryEdge, MemoryId,
    MemoryNode, MemoryType, MemoryView, MenteError, Timestamp,
};
use crate::order::{sort_ranked, stable_sorted, views_of, Ranked};
use crate::text::{chars_of, copy_text, has_text, lemma_views_push, lower_form, text_from, views};
use vstd::prelude::*;

verus! {

/// Configuration for the enrichment pipeline, which runs between conversations.
#[derive(Clone, Copy, Debug)]
pub struct EnrichmentConfig {
    /// Whether enrichment is enabled.
    pub enabled: bool,
    /// Run enrichment after this many turns.
    pub trigger_interval: u64,
    /// Minimum confidence for extracted memories to be stored.
    pub min_confidence: Single,
    /// Maximum confidence for memories that enrichment generates.
    pub max_enrichment_confidence: Single,
    /// Whether to generate a user model summary.
    pub enable_user_model: bool,
    /// Embedding similarity threshold to merge entities.
    pub entity_merge_threshold: Single,
    /// Embedding similarity below which entities are kept separate.
    pub entity_separate_threshold: Single,
}

impl EnrichmentConfig {
    /// The configuration that counts where none is given.
    pub open spec fn standard() -> EnrichmentConfig {
        EnrichmentConfig {
            enabled: false,
            trigger_interval: 50,
            min_confidence: Single { bits: 0x3f19_999a },
            max_enrichment_confidence: Single { bits: 0x3f33_3333 },
            enable_user_model: false,
            entity_merge_threshold: Single { bits: 0x3f33_3333 },
            entity_separate_threshold: Single { bits: 0x3ecc_cccd },
        }
    }
}

impl Default for EnrichmentConfig {
    /// Off; every 50 turns; confidences from 0.6 to 0.7; thresholds 0.7 and
    /// 0.4.
    fn default() -> (res: Self)
        ensures
            res == EnrichmentConfig::standard(),
    {
        EnrichmentConfig {
            enabled: false,
            trigger_interval: 50,
            min_confidence: Single { bits: 0x3f19_999a },
            max_enrichment_confidence: Single { bits: 0x3f33_3333 },
            enable_user_model: false,
            entity_merge_threshold: Single { bits: 0x3f33_3333 },
            entity_separate_threshold: Single { bits: 0x3ecc_cccd },
        }
    }
}

/// Result of running the enrichment pipeline.
#[derive(Clone, Copy, Debug, PartialEq, Eq, Structural)]
pub struct EnrichmentResult {
    /// Number of new memories stored from extraction.
    pub memories_stored: usize,
    /// Number of entity nodes created or updated.
    pub entities_processed: usize,
    /// Number of edges created (Derived, Related, PartOf).
    pub edges_created: usize,
    /// Number of memories skipped as duplicates.
    pub duplicates_skipped: usize,
    /// Number of contradictions detected.
    pub contradictions_found: usize,
    /// Turn at which enrichment was completed.
    pub completed_at_turn: u64,
    /// Number of entity links created.
    pub entities_linked: usize,
    /// Number of entity pairs left ambiguous.
    pub entities_ambiguous: usize,
}

impl Default for EnrichmentResult {
    fn default() -> (res: Self)
        ensures
            res == (EnrichmentResult {
                memories_stored: 0,
                entities_processed: 0,
                edges_created: 0,
                duplicates_skipped: 0,
                contradictions_found: 0,
                completed_at_turn: 0,
                entities_linked: 0,
                entities_ambiguous: 0,
            }),
    {
        EnrichmentResult {
            memories_stored: 0,
            entities_processed: 0,
            edges_created: 0,
            duplicates_skipped: 0,
            contradictions_found: 0,
            completed_at_turn: 0,
            entities_linked: 0,
            entities_ambiguous: 0,
        }
    }
}

// ---------------------------------------------------------------------------
// State
// ---------------------------------------------------------------------------
/// How far enrichment has come.
#[derive(Clone, Copy, Debug, PartialEq, Eq, Structural)]
pub struct EnrichmentState {
    /// The turn of the last completed cycle.
    pub last_turn: u64,
    /// Whether a cycle is asked for.
    pub pending: bool,
}

impl EnrichmentState {
    /// Nothing was enriched yet, and nothing is asked for.
    pub fn new() -> (res: Self)
        ensures
            res == (EnrichmentState { last_turn: 0, pending: false }),
    {
        EnrichmentState { last_turn: 0, pending: false }
    }

    /// Whether a cycle is due. None is where enrichment is off.
    pub fn needs_enrichment(&self, config: &EnrichmentConfig) -> (res: bool)
        ensures
            res == (config.enabled && self.pending),
    {
        config.enabled && self.pending
    }

    /// Asks for a cycle.
    pub fn request_enrichment(&mut self)
        ensures
            *final(self) == (EnrichmentState { last_turn: old(self).last_turn, pending: true }),
    {
        self.pending = true;
    }

    /// A cycle is complete.
    pub fn mark_enrichment_complete(&mut self, turn_id: u64)
        ensures
            *final(self) == (EnrichmentState { last_turn: turn_id, pending: false }),
    {
        self.last_turn = turn_id;
        self.pending = false;
    }
}

// ---------------------------------------------------------------------------
// Candidates
// ---------------------------------------------------------------------------
impl Ranked for MemoryNode {
    /// The older memory comes first.
    open spec fn ranks_before(a: MemoryView, b: MemoryView) -> bool {
        a.created_at < b.created_at
    }

    fn is_before(&self, other: &Self) -> (res: bool) {
        self.created_at < other.created_at
    }
}

/// Whether a memory is still to be enriched: an episode that enrichment did not
/// make itself, created after the last cycle.
pub open spec fn to_enrich(m: MemoryView, last_turn: u64) -> bool {
    &&& m.memory_type == MemoryType::Episodic
    &&& !m.tags.contains("source:enrichment"@)
    &&& m.created_at > last_turn
}

/// The memories to enrich, the oldest first.
pub open spec fn candidates(memories: Seq<MemoryView>, last_turn: u64) -> Seq<MemoryView> {
    stable_sorted(
        memories.filter(|m: MemoryView| to_enrich(m, last_turn)),
        |a: MemoryView, b: MemoryView| MemoryNode::ranks_before(a, b),
    )
}

/// The memories to enrich, the oldest first.
pub fn enrichment_candidates(memories: Vec<MemoryNode>, last_turn: u64) -> (res: Vec<MemoryNode>)
    ensures
        views_of(res@) == candidates(views_of(memories@), last_turn),
{
    let ghost all = views_of(memories@);
    let ghost keep = |m: MemoryView| to_enrich(m, last_turn);
    let mut out: Vec<MemoryNode> = Vec::new();
    proof {
        assert(all.take(0).filter(keep) =~= Seq::empty()) by {
            reveal(Seq::filter);
        }
        assert(views_of(out@) =~= Seq::empty());
    }
    for m in it: memories
        invariant
            keep == (|m: MemoryView| to_enrich(m, last_turn)),
            all == views_of(it.seq()),
            views_of(out@) == all.take(it.index() as int).filter(keep),
    {
        let ghost before = out@;
        proof {
            let i = it.index() as int;
            assert(all.take(i + 1) =~= all.take(i).push(m@));
            all.take(i).lemma_filter_push(m@, keep);
        }
        if m.memory_type == MemoryType::Episodic && !has_text(&m.tags, "source:enrichment")
            && m.created_at > last_turn {
            out.push(m);
            assert(views_of(out@) =~= views_of(before).push(m@));
        }
    }
    proof {
        assert(all.take(all.len() as int) =~= all);
    }
    sort_ranked(out)
}

/// Exactly the memories that are still to be enriched are candidates, and they
/// are in the order of their creation.
pub proof fn law_candidates(memories: Seq<MemoryView>, last_turn: u64)
    ensures
        forall|m: MemoryView| #[trigger]
            candidates(memories, last_turn).contains(m) <==> memories.contains(m) && to_enrich(
                m,
                last_turn,
            ),
        forall|i: int, j: int|
            0 <= i < j < candidates(memories, last_turn).len() ==> (#[trigger] candidates(
                memories,
                last_turn,
            )[i]).created_at <= (#[trigger] candidates(memories, last_turn)[j]).created_at,
{
    let keep = |m: MemoryView| to_enrich(m, last_turn);
    let rank = |a: MemoryView, b: MemoryView| MemoryNode::ranks_before(a, b);
    let some = memories.filter(keep);
    let out = candidates(memories, last_turn);
    crate::order::law_sort_keeps_items(some, rank);
    crate::order::law_sort_orders(some, rank);
    assert forall|m: MemoryView| #[trigger]
        out.contains(m) <==> memories.contains(m) && to_enrich(m, last_turn) by {
        if memories.contains(m) && to_enrich(m, last_turn) {
            let i = choose|i: int| 0 <= i < memories.len() && memories[i] == m;
            memories.lemma_filter_contains(keep, i);
        }
        if some.contains(m) {
            let i = choose|i: int| 0 <= i < some.len() && some[i] == m;
            memories.lemma_filter_pred(keep, i);
            memories.lemma_filter_contains_rev(keep, m);
        }
    }
    assert forall|i: int, j: int| 0 <= i < j < out.len() implies (#[trigger] out[i]).created_at
        <= (#[trigger] out[j]).created_at by {
        assert(!rank(out[j], out[i]));
    }
}

/// A memory as enrichment stores it: tagged as such, and no more confident than
/// allowed.
pub open spec fn enriched(m: MemoryView, max: Single) -> MemoryView {
    MemoryView {
        tags: if m.tags.contains("source:enrichment"@) {
            m.tags
        } else {
            m.tags.push("source:enrichment"@)
        },
        confidence: if max.less(m.confidence) {
            max
        } else {
            m.confidence
        },
        ..m
    }
}

/// Makes a memory ready to be stored by enrichment.
pub fn prepare_enrichment(memory: MemoryNode, max: Single) -> (res: MemoryNode)
    ensures
        res@ == enriched(memory@, max),
{
    let mut m = memory;
    if !has_text(&m.tags, "source:enrichment") {
        let tag = copy_text("source:enrichment");
        proof {
            lemma_views_push(m.tags@, tag);
        }
        m.tags.push(tag);
    }
    if m.confidence.gt(max) {
        m.confidence = max;
    }
    m
}

/// What enrichment stores is tagged, is never taken up by enrichment again, and
/// is no more confident than allowed.
pub proof fn law_enriched(m: MemoryView, max: Single, last_turn: u64)
    ensures
        enriched(m, max).tags.contains("source:enrichment"@),
        !to_enrich(enriched(m, max), last_turn),
        !max.less(enriched(m, max).confidence),
        enriched(enriched(m, max), max) == enriched(m, max),
{
    let tag = "source:enrichment"@;
    let once = enriched(m, max);
    if !m.tags.contains(tag) {
        assert(once.tags[m.tags.len() as int] == tag);
    }
    assert(enriched(once, max) =~= once);
}

/// The weight of an edge to what something was derived from.
pub open spec fn derived_weight() -> Single {
    Single { bits: 0x3f4c_cccd }
}

/// The edges from a derived memory to its sources.
pub open spec fn derived_edges(
    from: MemoryId,
    sources: Seq<MemoryId>,
    label: Seq<char>,
    now: Timestamp,
) -> Seq<EdgeView> {
    sources.map_values(
        |s: MemoryId|
            plain_edge(from, s, EdgeType::Derived, derived_weight(), now, Some(label)),
    )
}

fn push_derived(
    from: MemoryId,
    sources: &Vec<MemoryId>,
    label: &str,
    now: Timestamp,
    out: &mut Vec<MemoryEdge>,
)
    ensures
        views_of(final(out)@) == views_of(old(out)@) + derived_edges(from, sources@, label@, now),
{
    let ghost start = views_of(out@);
    let ghost all = derived_edges(from, sources@, label@, now);
    proof {
        assert(start + all.take(0) =~= start);
    }
    for i in 0..sources.len()
        invariant
            all == derived_edges(from, sources@, label@, now),
            views_of(out@) == start + all.take(i as int),
    {
        let ghost before = out@;
        let edge = MemoryEdge::plain(
            from,
            sources[i],
            EdgeType::Derived,
            Single { bits: 0x3f4c_cccd },
            now,
            Some(copy_text(label)),
        );
        out.push(edge);
        assert(views_of(out@) =~= views_of(before).push(edge@));
        assert(views_of(out@) =~= start + all.take(i + 1));
    }
    proof {
        assert(all.take(all.len() as int) =~= all);
    }
}

/// The edges from a memory that enrichment stored to its source episodes.
pub fn enrichment_edges(memory: MemoryId, sources: &Vec<MemoryId>, now: Timestamp) -> (res: Vec<
    MemoryEdge,
>)
    ensures
        views_of(res@) == derived_edges(memory, sources@, "enrichment"@, now),
{
    let mut out: Vec<MemoryEdge> = Vec::new();
    push_derived(memory, sources, "enrichment", now, &mut out);
    proof {
        assert(views_of(Seq::<MemoryEdge>::empty()) =~= Seq::<EdgeView>::empty());
        let d = derived_edges(memory, sources@, "enrichment"@, now);
        assert(Seq::<EdgeView>::empty() + d =~= d);
    }
    out
}

// ---------------------------------------------------------------------------
// Communities
// ---------------------------------------------------------------------------
/// The first characters of a text.
pub open spec fn first_chars(s: Seq<char>, n: nat) -> Seq<char> {
    s.take(if n < s.len() {
        n as int
    } else {
        s.len() as int
    })
}

fn take_chars(s: &str, n: usize) -> (res: String)
    ensures
        res@ == first_chars(s@, n as nat),
{
    let chars = chars_of(s);
    let end: usize = if n < chars.len() {
        n
    } else {
        chars.len()
    };
    proof {
        assert(chars@.subrange(0, end as int) =~= first_chars(s@, n as nat));
    }
    text_from(&chars, 0, end)
}

/// An entity of a community, with a snippet of its memory.
#[derive(Debug)]
pub struct CommunityMember {
    pub name: String,
    pub context: String,
}

impl View for CommunityMember {
    type V = (Seq<char>, Seq<char>);

    open spec fn view(&self) -> (Seq<char>, Seq<char>) {
        (self.name@, self.context@)
    }
}

/// Entities of one category.
#[derive(Debug)]
pub struct Community {
    pub category: String,
    pub members: Vec<CommunityMember>,
}

impl View for Community {
    type V = (Seq<char>, Seq<(Seq<char>, Seq<char>)>);

    open spec fn view(&self) -> (Seq<char>, Seq<(Seq<char>, Seq<char>)>) {
        (self.category@, views_of(self.members@))
    }
}

/// How much of a memory's text a community shows.
pub const COMMUNITY_CONTEXT_CHARS: usize = 200;

/// The category of a memory: its `entity_type:` tag in lower case, `general`
/// where it has none.
pub open spec fn category_of(m: MemoryView) -> Seq<char> {
    match first_after(m.tags, "entity_type:"@) {
        Some(t) => lower_form(t),
        None => lower_form("general"@),
    }
}

/// The entity that a memory adds to a community. Summaries add none.
pub open spec fn member_of(m: MemoryView) -> Option<(Seq<char>, Seq<char>)> {
    if m.tags.contains("community_summary"@) {
        None
    } else {
        match first_after(m.tags, "entity:"@) {
            Some(name) => Some((name, first_chars(m.content, COMMUNITY_CONTEXT_CHARS as nat))),
            None => None,
        }
    }
}

impl Keyed for Community {
    type Held = Seq<(Seq<char>, Seq<char>)>;

    fn key(&self) -> (res: &str) {
        self.category.as_str()
    }
}

/// All categories with their entities.
pub open spec fn categories(memories: Seq<MemoryView>) -> Seq<
    (Seq<char>, Seq<(Seq<char>, Seq<char>)>),
>
    decreases memories.len(),
{
    if memories.len() == 0 {
        Seq::empty()
    } else {
        let rest = categories(memories.drop_last());
        let m = memories.last();
        match member_of(m) {
            Some(member) => match key_index(rest, category_of(m)) {
                Some(i) => rest.update(i, (category_of(m), rest[i].1.push(member))),
                None => rest.push((category_of(m), seq![member])),
            },
            None => rest,
        }
    }
}

/// The categories with at least two entities.
pub open spec fn communities(memories: Seq<MemoryView>) -> Seq<
    (Seq<char>, Seq<(Seq<char>, Seq<char>)>),
> {
    categories(memories).filter(|c: (Seq<char>, Seq<(Seq<char>, Seq<char>)>)| c.1.len() >= 2)
}

fn collect_categories(memories: &Vec<MemoryNode>) -> (res: Vec<Community>)
    ensures
        views_of(res@) == categories(views_of(memories@)),
{
    let ghost all = views_of(memories@);
    let mut out: Vec<Community> = Vec::new();
    proof {
        assert(views_of(out@) =~= categories(all.take(0)));
    }
    for i in 0..memories.len()
        invariant
            all == views_of(memories@),
            views_of(out@) == categories(all.take(i as int)),
    {
        let m = &memories[i];
        let ghost before = out@;
        proof {
            assert(all.take(i + 1).drop_last() =~= all.take(i as int));
            assert(all.take(i + 1).last() == m@);
        }
        if !has_text(&m.tags, "community_summary") {
            if let Some(name) = first_tag_after(&m.tags, "entity:") {
                let category = match first_tag_after(&m.tags, "entity_type:") {
                    Some(t) => t.to_lowercase(),
                    None => "general".to_lowercase(),
                };
                let member = CommunityMember {
                    name: copy_text(name),
                    context: take_chars(m.content.as_str(), COMMUNITY_CONTEXT_CHARS),
                };
                let ghost added = member@;
                proof {
                    assert(member_of(m@) == Some(added));
                    assert(category@ == category_of(m@));
                    law_key_index(views_of(before), category@);
                }
                match find_key(&out, category.as_str()) {
                    Some(k) => {
                        let mut slot = out.remove(k);
                        let ghost old_slot = slot@;
                        let ghost old_members = slot.members@;
                        assert(old_slot == views_of(before)[k as int]);
                        slot.members.push(member);
                        assert(views_of(slot.members@) =~= views_of(old_members).push(added));
                        out.insert(k, slot);
                        assert(views_of(out@) =~= views_of(before).update(
                            k as int,
                            (category@, old_slot.1.push(added)),
                        ));
                    },
                    None => {
                        let mut members: Vec<CommunityMember> = Vec::new();
                        members.push(member);
                        assert(views_of(members@) =~= seq![added]);
                        let slot = Community { category, members };
                        out.push(slot);
                        assert(views_of(out@) =~= views_of(before).push(slot@));
                    },
                }
            }
        }
    }
    proof {
        assert(all.take(all.len() as int) =~= all);
    }
    out
}

/// The categories of entities with at least two members, each member with a
/// snippet of its memory.
pub fn entity_communities(memories: &Vec<MemoryNode>) -> (res: Vec<Community>)
    ensures
        views_of(res@) == communities(views_of(memories@)),
{
    let found = collect_categories(memories);
    let ghost all = views_of(found@);
    let ghost keep = |c: (Seq<char>, Seq<(Seq<char>, Seq<char>)>)| c.1.len() >= 2;
    let mut out: Vec<Community> = Vec::new();
    proof {
        assert(all.take(0).filter(keep) =~= Seq::empty()) by {
            reveal(Seq::filter);
        }
        assert(views_of(out@) =~= Seq::empty());
    }
    for c in it: found
        invariant
            keep == (|c: (Seq<char>, Seq<(Seq<char>, Seq<char>)>)| c.1.len() >= 2),
            all == views_of(it.seq()),
            views_of(out@) == all.take(it.index() as int).filter(keep),
    {
        let ghost before = out@;
        proof {
            let i = it.index() as int;
            assert(all.take(i + 1) =~= all.take(i).push(c@));
            all.take(i).lemma_filter_push(c@, keep);
        }
        if c.members.len() >= 2 {
            out.push(c);
            assert(views_of(out@) =~= views_of(before).push(c@));
        }
    }
    proof {
        assert(all.take(all.len() as int) =~= all);
    }
    out
}

/// The tag of the summary of a category.
pub open spec fn community_tag(category: Seq<char>) -> Seq<char> {
    "community:"@ + category
}

/// The first memory with a tag.
pub open spec fn first_tagged(memories: Seq<MemoryView>, tag: Seq<char>) -> Option<int>
    decreases memories.len(),
{
    if memories.len() == 0 {
        None
    } else {
        match first_tagged(memories.drop_last(), tag) {
            Some(i) => Some(i),
            None => if memories.last().tags.contains(tag) {
                Some(memories.len() - 1)
            } else {
                None
            },
        }
    }
}

proof fn lemma_first_tagged_prefix(memories: Seq<MemoryView>, tag: Seq<char>, n: int)
    requires
        0 <= n <= memories.len(),
        first_tagged(memories.take(n), tag) is Some,
    ensures
        first_tagged(memories, tag) == first_tagged(memories.take(n), tag),
    decreases memories.len() - n,
{
    if n < memories.len() {
        assert(memories.take(n + 1).drop_last() =~= memories.take(n));
        lemma_first_tagged_prefix(memories, tag, n + 1);
    } else {
        assert(memories.take(n) =~= memories);
    }
}

fn find_tagged(memories: &Vec<MemoryNode>, tag: &str) -> (res: Option<usize>)
    ensures
        match res {
            Some(i) => i < memories@.len() && first_tagged(views_of(memories@), tag@) == Some(
                i as int,
            ),
            None => first_tagged(views_of(memories@), tag@) is None,
        },
{
    let ghost all = views_of(memories@);
    for i in 0..memories.len()
        invariant
            all == views_of(memories@),
            first_tagged(all.take(i as int), tag@) is None,
    {
        proof {
            assert(all.take(i + 1).drop_last() =~= all.take(i as int));
            assert(all.take(i + 1).last() == memories@[i as int]@);
        }
        if has_text(&memories[i].tags, tag) {
            proof {
                lemma_first_tagged_prefix(all, tag@, i + 1);
            }
            return Some(i);
        }
    }
    proof {
        assert(all.take(all.len() as int) =~= all);
    }
    None
}

/// The position of the summary of a category, if there is one. A category
/// without a name is an error.
pub fn find_community_summary(memories: &Vec<MemoryNode>, category: &str) -> (res: Result<
    Option<usize>,
    MenteError,
>)
    ensures
        match res {
            Ok(found) => category@.len() > 0 && (match found {
                Some(i) => i < memories@.len() && first_tagged(
                    views_of(memories@),
                    community_tag(category@),
                ) == Some(i as int),
                None => first_tagged(views_of(memories@), community_tag(category@)) is None,
            }),
            Err(e) => category@.len() == 0 && e@ == ErrorView::Storage(
                "community category cannot be empty"@,
            ),
        },
{
    if category.is_empty() {
        return Err(MenteError::Storage(copy_text("community category cannot be empty")));
    }
    let mut tag = copy_text("community:");
    tag.append(category);
    Ok(find_tagged(memories, tag.as_str()))
}

/// A memory with a new text, and with a new embedding where one is given.
pub open spec fn rewritten(
    m: MemoryView,
    text: Seq<char>,
    embedding: Option<Seq<Single>>,
) -> MemoryView {
    MemoryView {
        content: text,
        embedding: match embedding {
            Some(e) => e,
            None => m.embedding,
        },
        ..m
    }
}

pub open spec fn opt_embedding(e: Option<Vec<Single>>) -> Option<Seq<Single>> {
    match e {
        Some(v) => Some(v@),
        None => None,
    }
}

/// Replaces the text of a memory; without a new embedding the old one stays.
pub fn rewrite_memory(node: MemoryNode, text: &str, embedding: Option<Vec<Single>>) -> (res:
    MemoryNode)
    ensures
        res@ == rewritten(node@, text@, opt_embedding(embedding)),
{
    let mut n = node;
    n.content = copy_text(text);
    if let Some(e) = embedding {
        n.embedding = e;
    }
    n
}

/// The confidence of a community summary.
pub open spec fn summary_confidence() -> Single {
    Single { bits: 0x3f33_3333 }
}

/// The summary of a category as it is made.
pub open spec fn new_summary(
    id: MemoryId,
    agent: AgentId,
    category: Seq<char>,
    text: Seq<char>,
    embedding: Option<Seq<Single>>,
    now: Timestamp,
) -> MemoryView {
    MemoryView {
        tags: seq!["community_summary"@, community_tag(category), "source:enrichment"@],
        confidence: summary_confidence(),
        ..fresh_memory(
            id,
            agent,
            MemoryType::Semantic,
            text,
            match embedding {
                Some(e) => e,
                None => Seq::empty(),
            },
            now,
        )
    }
}

fn three_tags(a: &str, b: &str, c: &str) -> (res: Vec<String>)
    ensures
        views(res@) == seq![a@, b@, c@],
{
    let mut tags: Vec<String> = Vec::new();
    tags.push(copy_text(a));
    tags.push(copy_text(b));
    tags.push(copy_text(c));
    assert(views(tags@) =~= seq![a@, b@, c@]);
    tags
}

fn embedding_or_empty(e: Option<Vec<Single>>) -> (res: Vec<Single>)
    ensures
        res@ == match opt_embedding(e) {
            Some(v) => v,
            None => Seq::empty(),
        },
{
    match e {
        Some(v) => v,
        None => Vec::new(),
    }
}

/// A new summary of a category, with a given identity, agent and time.
pub fn community_summary_at(
    id: MemoryId,
    agent: AgentId,
    category: &str,
    text: &str,
    embedding: Option<Vec<Single>>,
    now: Timestamp,
) -> (res: MemoryNode)
    ensures
        res@ == new_summary(id, agent, category@, text@, opt_embedding(embedding), now),
{
    let mut tag = copy_text("community:");
    tag.append(category);
    let mut node = MemoryNode::at(
        id,
        agent,
        MemoryType::Semantic,
        copy_text(text),
        embedding_or_empty(embedding),
        now,
    );
    node.tags = three_tags("community_summary", tag.as_str(), "source:enrichment");
    node.confidence = Single { bits: 0x3f33_3333 };
    assert(node@ =~= new_summary(id, agent, category@, text@, opt_embedding(embedding), now));
    node
}

/// A new summary of a category that is made now.
pub fn community_summary(category: &str, text: &str, embedding: Option<Vec<Single>>) -> (res:
    MemoryNode)
    ensures
        is_random_uuid(res.id.value),
        is_random_uuid(res.agent_id.value),
        res@ == new_summary(
            res.id,
            res.agent_id,
            category@,
            text@,
            opt_embedding(embedding),
            res.created_at,
        ),
{
    community_summary_at(
        MemoryId::new(),
        AgentId::new(),
        category,
        text,
        embedding,
        crate::clock::now_us(),
    )
}

/// Whether a memory is what is stored as the summary of a category: the one that
/// is there with the new text, or a new one.
pub open spec fn is_summary_written(
    memories: Seq<MemoryView>,
    category: Seq<char>,
    text: Seq<char>,
    embedding: Option<Seq<Single>>,
    m: MemoryView,
) -> bool {
    match first_tagged(memories, community_tag(category)) {
        Some(i) => m == rewritten(memories[i], text, embedding),
        None => m == new_summary(m.id, m.agent_id, category, text, embedding, m.created_at),
    }
}

/// A memory that is to be stored in place of an earlier one, or as a new one.
#[derive(Debug)]
pub struct PlacedMemory {
    pub node: MemoryNode,
    /// Whether there was no earlier one.
    pub created: bool,
}

/// What is stored when the summary of a category is written: the one that is
/// there with the new text, or a new one. A category without a name is an error.
pub fn store_community_summary(
    memories: Vec<MemoryNode>,
    category: &str,
    text: &str,
    embedding: Option<Vec<Single>>,
) -> (res: Result<PlacedMemory, MenteError>)
    ensures
        match res {
            Ok(s) => {
                &&& category@.len() > 0
                &&& s.created <==> first_tagged(
                    views_of(memories@),
                    community_tag(category@),
                ) is None
                &&& is_summary_written(
                    views_of(memories@),
                    category@,
                    text@,
                    opt_embedding(embedding),
                    s.node@,
                )
                &&& s.created ==> is_random_uuid(s.node.id.value) && is_random_uuid(
                    s.node.agent_id.value,
                )
            },
            Err(e) => category@.len() == 0 && e@ == ErrorView::Storage(
                "community category cannot be empty"@,
            ),
        },
{
    match find_community_summary(&memories, category) {
        Ok(Some(i)) => {
            let mut all = memories;
            let node = all.swap_remove(i);
            Ok(PlacedMemory { node: rewrite_memory(node, text, embedding), created: false })
        },
        Ok(None) => Ok(
            PlacedMemory { node: community_summary(category, text, embedding), created: true },
        ),
        Err(e) => Err(e),
    }
}

/// The label of the edges from a summary to the members of its category.
pub open spec fn member_label(category: Seq<char>) -> Seq<char> {
    "community_member:"@ + category
}

/// The edges from a summary to the memories of the members.
pub open spec fn member_edges(
    map: Seq<(Seq<char>, Seq<MemoryId>)>,
    summary: MemoryId,
    category: Seq<char>,
    names: Seq<Seq<char>>,
    now: Timestamp,
) -> Seq<EdgeView>
    decreases names.len(),
{
    if names.len() == 0 {
        Seq::empty()
    } else {
        member_edges(map, summary, category, names.drop_last(), now) + derived_edges(
            summary,
            memories_of(map, lower_form(names.last())),
            member_label(category),
            now,
        )
    }
}

/// The edges from a summary to the memories of the members of its category.
pub fn community_edges(
    map: &Vec<NamedMemories>,
    summary: MemoryId,
    category: &str,
    names: &Vec<String>,
    now: Timestamp,
) -> (res: Vec<MemoryEdge>)
    ensures
        views_of(res@) == member_edges(
            views_of(map@),
            summary,
            category@,
            views(names@),
            now,
        ),
{
    let ghost m = views_of(map@);
    let ghost all = views(names@);
    let mut label = copy_text("community_member:");
    label.append(category);
    let mut out: Vec<MemoryEdge> = Vec::new();
    proof {
        assert(views_of(out@) =~= member_edges(m, summary, category@, all.take(0), now));
    }
    for i in 0..names.len()
        invariant
            m == views_of(map@),
            all == views(names@),
            label@ == member_label(category@),
            views_of(out@) == member_edges(m, summary, category@, all.take(i as int), now),
    {
        proof {
            assert(all.take(i + 1).drop_last() =~= all.take(i as int));
            assert(all.take(i + 1).last() == names@[i as int]@);
        }
        let ids = crate::entities::ids_under(map, names[i].as_str().to_lowercase().as_str());
        push_derived(summary, &ids, label.as_str(), now, &mut out);
    }
    proof {
        assert(all.take(all.len() as int) =~= all);
    }
    out
}

/// The memories with a tag.
pub open spec fn tagged(memories: Seq<MemoryView>, tag: Seq<char>) -> Seq<MemoryView> {
    memories.filter(|m: MemoryView| m.tags.contains(tag))
}

/// The community summaries among the memories.
pub fn community_summaries(memories: Vec<MemoryNode>) -> (res: Vec<MemoryNode>)
    ensures
        views_of(res@) == tagged(views_of(memories@), "community_summary"@),
{
    let ghost all = views_of(memories@);
    let ghost keep = |m: MemoryView| m.tags.contains("community_summary"@);
    let mut out: Vec<MemoryNode> = Vec::new();
    proof {
        assert(all.take(0).filter(keep) =~= Seq::empty()) by {
            reveal(Seq::filter);
        }
        assert(views_of(out@) =~= Seq::empty());
    }
    for m in it: memories
        invariant
            keep == (|m: MemoryView| m.tags.contains("community_summary"@)),
            all == views_of(it.seq()),
            views_of(out@) == all.take(it.index() as int).filter(keep),
    {
        let ghost before = out@;
        proof {
            let i = it.index() as int;
            assert(all.take(i + 1) =~= all.take(i).push(m@));
            all.take(i).lemma_filter_push(m@, keep);
        }
        if has_text(&m.tags, "community_summary") {
            out.push(m);
            assert(views_of(out@) =~= views_of(before).push(m@));
        }
    }
    proof {
        assert(all.take(all.len() as int) =~= all);
    }
    out
}

// ---------------------------------------------------------------------------
// Profile
// ---------------------------------------------------------------------------
/// How much of a fact a profile takes in.
pub const PROFILE_FACT_CHARS: usize = 300;

/// How many facts a profile takes in.
pub const PROFILE_FACT_LIMIT: usize = 100;

/// Whether a memory is a fact for the profile: semantic or procedural, of a
/// confidence not below 0.5, neither a summary nor an entity.
pub open spec fn is_profile_fact(m: MemoryView) -> bool {
    &&& !m.confidence.less(Single { bits: 0x3f00_0000 })
    &&& m.memory_type == MemoryType::Semantic || m.memory_type == MemoryType::Procedural
    &&& !m.tags.contains("community_summary"@)
    &&& !is_entity_memory(m)
}

/// The facts for the profile, before the limit.
pub open spec fn facts_of(memories: Seq<MemoryView>) -> Seq<Seq<char>>
    decreases memories.len(),
{
    if memories.len() == 0 {
        Seq::empty()
    } else {
        let rest = facts_of(memories.drop_last());
        let m = memories.last();
        if is_profile_fact(m) {
            rest.push(first_chars(m.content, PROFILE_FACT_CHARS as nat))
        } else {
            rest
        }
    }
}

/// The facts from which a profile is made: the first of them, each cut.
pub fn profile_facts(memories: &Vec<MemoryNode>) -> (res: Vec<String>)
    ensures
        views(res@) == ({
            let all = facts_of(views_of(memories@));
            if PROFILE_FACT_LIMIT < all.len() {
                all.take(PROFILE_FACT_LIMIT as int)
            } else {
                all
            }
        }),
{
    let ghost all = views_of(memories@);
    let mut facts: Vec<String> = Vec::new();
    proof {
        assert(views(facts@) =~= facts_of(all.take(0)));
    }
    for i in 0..memories.len()
        invariant
            all == views_of(memories@),
            views(facts@) == facts_of(all.take(i as int)),
    {
        let m = &memories[i];
        proof {
            assert(all.take(i + 1).drop_last() =~= all.take(i as int));
            assert(all.take(i + 1).last() == m@);
        }
        let fitting = m.memory_type == MemoryType::Semantic || m.memory_type
            == MemoryType::Procedural;
        if !m.confidence.lt(Single { bits: 0x3f00_0000 }) && fitting && !has_text(
            &m.tags,
            "community_summary",
        ) && !any_tag_starts(&m.tags, "entity:") {
            let fact = take_chars(m.content.as_str(), PROFILE_FACT_CHARS);
            proof {
                lemma_views_push(facts@, fact);
            }
            facts.push(fact);
        }
    }
    let ghost full = facts@;
    proof {
        assert(all.take(all.len() as int) =~= all);
    }
    facts.truncate(PROFILE_FACT_LIMIT);
    proof {
        if PROFILE_FACT_LIMIT < full.len() {
            assert(views(facts@) =~= views(full).take(PROFILE_FACT_LIMIT as int));
        }
    }
    facts
}

/// The position of the user profile, if there is one.
pub fn user_profile(memories: &Vec<MemoryNode>) -> (res: Option<usize>)
    ensures
        match res {
            Some(i) => i < memories@.len() && first_tagged(
                views_of(memories@),
                "user_profile"@,
            ) == Some(i as int),
            None => first_tagged(views_of(memories@), "user_profile"@) is None,
        },
{
    find_tagged(memories, "user_profile")
}

/// The user profile as it is made, with a confidence of 0.8.
pub open spec fn new_profile(
    id: MemoryId,
    agent: AgentId,
    text: Seq<char>,
    embedding: Option<Seq<Single>>,
    now: Timestamp,
) -> MemoryView {
    MemoryView {
        tags: seq!["user_profile"@, "scope:always"@, "source:enrichment"@],
        confidence: Single { bits: 0x3f4c_cccd },
        ..fresh_memory(
            id,
            agent,
            MemoryType::Semantic,
            text,
            match embedding {
                Some(e) => e,
                None => Seq::empty(),
            },
            now,
        )
    }
}

/// A new user profile, with a given identity, agent and time.
pub fn user_profile_at(
    id: MemoryId,
    agent: AgentId,
    text: &str,
    embedding: Option<Vec<Single>>,
    now: Timestamp,
) -> (res: MemoryNode)
    ensures
        res@ == new_profile(id, agent, text@, opt_embedding(embedding), now),
{
    let mut node = MemoryNode::at(
        id,
        agent,
        MemoryType::Semantic,
        copy_text(text),
        embedding_or_empty(embedding),
        now,
    );
    node.tags = three_tags("user_profile", "scope:always", "source:enrichment");
    node.confidence = Single { bits: 0x3f4c_cccd };
    assert(node@ =~= new_profile(id, agent, text@, opt_embedding(embedding), now));
    node
}

/// A new user profile that is made now.
pub fn new_user_profile(text: &str, embedding: Option<Vec<Single>>) -> (res: MemoryNode)
    ensures
        is_random_uuid(res.id.value),
        is_random_uuid(res.agent_id.value),
        res@ == new_profile(
            res.id,
            res.agent_id,
            text@,
            opt_embedding(embedding),
            res.created_at,
        ),
{
    user_profile_at(MemoryId::new(), AgentId::new(), text, embedding, crate::clock::now_us())
}

/// Whether a memory is what is stored as the user profile: the one that is there
/// with the new text, or a new one.
pub open spec fn is_profile_written(
    memories: Seq<MemoryView>,
    text: Seq<char>,
    embedding: Option<Seq<Single>>,
    m: MemoryView,
) -> bool {
    match first_tagged(memories, "user_profile"@) {
        Some(i) => m == rewritten(memories[i], text, embedding),
        None => m == new_profile(m.id, m.agent_id, text, embedding, m.created_at),
    }
}

/// What is stored when the user profile is written: the one that is there with
/// the new text, or a new one. There is never a second one.
pub fn store_user_profile(
    memories: Vec<MemoryNode>,
    text: &str,
    embedding: Option<Vec<Single>>,
) -> (res: PlacedMemory)
    ensures
        res.created <==> first_tagged(views_of(memories@), "user_profile"@) is None,
        is_profile_written(views_of(memories@), text@, opt_embedding(embedding), res.node@),
        res.created ==> is_random_uuid(res.node.id.value) && is_random_uuid(
            res.node.agent_id.value,
        ),
{
    match user_profile(&memories) {
        Some(i) => {
            let mut all = memories;
            let node = all.swap_remove(i);
            PlacedMemory { node: rewrite_memory(node, text, embedding), created: false }
        },
        None => PlacedMemory { node: new_user_profile(text, embedding), created: true },
    }
}

} // verus!
