//! What inference, consolidation, enrichment and the graph do, in terms of memories
//! and edges.
use crate::contexts::extended;
use crate::enrichment::{
    candidates, categories, category_of, communities, derived_edges, enriched, facts_of,
    is_profile_fact, member_of, to_enrich,
};
use crate::entities::first_after;
use crate::float::Single;
use crate::graph::{links, other_end};
use crate::keyed::{key_index, law_key_index};
use crate::lifecycle::{compared, consolidation_of, effects_of, EffectView, InferredAction};
use crate::memory::{
    Direction, EdgeType, EdgeView, MemoryId, MemoryNode, MemoryType, MemoryView, Timestamp,
};
use crate::order::{law_sort_keeps_items, law_sort_orders, Ranked};
use crate::run_laws::lemma_places_grow;
use crate::search::ScoredHit;
use crate::text::{byte_count, starts_with};
use crate::text_laws::law_prefix;
use vstd::prelude::*;

verus! {

// ---------------------------------------------------------------------------
// Inference
// ---------------------------------------------------------------------------
/// Whether an effect is an edge between two memories, of full weight and made now.
pub open spec fn is_edge(
    e: EffectView,
    source: MemoryId,
    target: MemoryId,
    edge_type: EdgeType,
    now: Timestamp,
) -> bool {
    e matches EffectView::Relate(edge) && {
        &&& edge.source == source
        &&& edge.target == target
        &&& edge.edge_type == edge_type
        &&& edge.weight.bits == 0x3f80_0000
        &&& edge.created_at == now
        &&& edge.valid_from is None
        &&& edge.valid_until is None
    }
}

/// What is invalidated ceases to hold, at the time given or now, and the memory
/// that supersedes it points to it. A contradiction points from the new memory to
/// the existing one, for the reason given. An edge is made as it is asked for.
pub proof fn law_effects(action: InferredAction, now: Timestamp)
    ensures
        ({
            let all = effects_of(action, now);
            match action {
                InferredAction::CreateEdge { source, target, edge_type, weight } => {
                    &&& all.len() == 1
                    &&& all[0] matches EffectView::Relate(e) && e.source == source && e.target
                        == target && e.edge_type == edge_type && e.weight == weight
                        && e.created_at == now && e.valid_until is None && e.label is None
                },
                InferredAction::InvalidateMemory { memory, superseded_by, valid_until } => {
                    &&& all.len() == 2
                    &&& all[0] == (EffectView::Invalidate { memory, at: valid_until })
                    &&& is_edge(all[1], superseded_by, memory, EdgeType::Supersedes, now)
                },
                InferredAction::MarkObsolete { memory, superseded_by } => {
                    &&& all.len() == 2
                    &&& all[0] == (EffectView::Invalidate { memory, at: now })
                    &&& is_edge(all[1], superseded_by, memory, EdgeType::Supersedes, now)
                },
                InferredAction::FlagContradiction { existing, new, reason } => {
                    &&& all.len() == 1
                    &&& is_edge(all[0], new, existing, EdgeType::Contradicts, now)
                    &&& all[0] matches EffectView::Relate(e) && e.label == Some(reason@)
                },
                InferredAction::UpdateConfidence { memory, new_confidence } => {
                    &&& all.len() == 1
                    &&& all[0] == (EffectView::SetConfidence { memory, confidence: new_confidence })
                },
                _ => true,
            }
        }),
{
}

/// A new memory is compared with each memory that was found but itself, and with no
/// other one.
pub proof fn law_compared(hits: Seq<ScoredHit>, new_id: MemoryId, id: MemoryId)
    ensures
        !compared(hits, new_id).contains(new_id),
        id != new_id ==> (compared(hits, new_id).contains(id) <==> crate::search::found_in(
            hits,
            id,
        )),
{
    let keep = |h: ScoredHit| h.id != new_id;
    let f = hits.filter(keep);
    let out = compared(hits, new_id);
    assert forall|x: MemoryId| #[trigger] out.contains(x) implies x != new_id
        && crate::search::found_in(hits, x) by {
        let i = choose|i: int| 0 <= i < out.len() && out[i] == x;
        hits.lemma_filter_pred(keep, i);
        assert(f.contains(f[i]));
        hits.lemma_filter_contains_rev(keep, f[i]);
        let j = choose|j: int| 0 <= j < hits.len() && hits[j] == f[i];
        assert(hits[j].id == x);
    }
    if id != new_id && crate::search::found_in(hits, id) {
        let j = choose|j: int| 0 <= j < hits.len() && (#[trigger] hits[j]).id == id;
        hits.lemma_filter_contains(keep, j);
        let i = choose|i: int| 0 <= i < f.len() && f[i] == hits[j];
        assert(out[i] == id);
    }
}

/// Consolidation ends each of its sources now, and the new memory is derived from
/// each.
pub proof fn law_consolidation(new_id: MemoryId, sources: Seq<MemoryId>, now: Timestamp)
    ensures
        consolidation_of(new_id, sources, now).len() == 2 * sources.len(),
        forall|i: int|
            0 <= i < sources.len() ==> consolidation_of(new_id, sources, now)[2 * i] == (
            EffectView::Invalidate { memory: #[trigger] sources[i], at: now }),
        forall|i: int|
            0 <= i < sources.len() ==> is_edge(
                consolidation_of(new_id, sources, now)[2 * i + 1],
                new_id,
                #[trigger] sources[i],
                EdgeType::Derived,
                now,
            ),
    decreases sources.len(),
{
    if sources.len() > 0 {
        let head = sources.drop_last();
        law_consolidation(new_id, head, now);
        let rest = consolidation_of(new_id, head, now);
        let all = consolidation_of(new_id, sources, now);
        assert forall|i: int| 0 <= i < sources.len() implies all[2 * i] == (
        EffectView::Invalidate { memory: #[trigger] sources[i], at: now }) && is_edge(
            all[2 * i + 1],
            new_id,
            sources[i],
            EdgeType::Derived,
            now,
        ) by {
            if i < head.len() {
                assert(head[i] == sources[i]);
                assert(all[2 * i] == rest[2 * i]);
                assert(all[2 * i + 1] == rest[2 * i + 1]);
            }
        }
    }
}

// ---------------------------------------------------------------------------
// Graph
// ---------------------------------------------------------------------------
/// An edge leads from a memory if it starts there, to it if it ends there, and either
/// will do for both directions; and its type is one of those wanted, where types
/// are. The other end of it is the one that is not the memory.
pub proof fn law_links(e: EdgeView, id: MemoryId, types: Option<Seq<EdgeType>>)
    ensures
        types is None || types->0.contains(e.edge_type) ==> {
            &&& links(e, id, types, Direction::Outgoing) <==> e.source == id
            &&& links(e, id, types, Direction::Incoming) <==> e.target == id
            &&& links(e, id, types, Direction::Both) <==> e.source == id || e.target == id
        },
        types is Some && !types->0.contains(e.edge_type) ==> {
            &&& !links(e, id, types, Direction::Outgoing)
            &&& !links(e, id, types, Direction::Incoming)
            &&& !links(e, id, types, Direction::Both)
        },
        e.source == id ==> other_end(e, id) == e.target,
        e.target == id && e.source != id ==> other_end(e, id) == e.source,
{
}

// ---------------------------------------------------------------------------
// Enrichment
// ---------------------------------------------------------------------------
/// Enrichment looks at exactly the episodes from after its last cycle that it did
/// not make itself, and at the older ones first.
pub proof fn law_enrichment_looks(memories: Seq<MemoryView>, last: u64, m: MemoryView)
    ensures
        candidates(memories, last).contains(m) <==> memories.contains(m) && m.memory_type
            == MemoryType::Episodic && !m.tags.contains("source:enrichment"@) && m.created_at
            > last,
        forall|i: int, j: int|
            0 <= i < j < candidates(memories, last).len() ==> (#[trigger] candidates(
                memories,
                last,
            )[i]).created_at <= (#[trigger] candidates(memories, last)[j]).created_at,
{
    let keep = |x: MemoryView| to_enrich(x, last);
    let f = memories.filter(keep);
    let rank = |a: MemoryView, b: MemoryView| MemoryNode::ranks_before(a, b);
    law_sort_keeps_items(f, rank);
    law_sort_orders(f, rank);
    if f.contains(m) {
        let i = choose|i: int| 0 <= i < f.len() && f[i] == m;
        memories.lemma_filter_pred(keep, i);
        memories.lemma_filter_contains_rev(keep, m);
    }
    if memories.contains(m) && to_enrich(m, last) {
        let i = choose|i: int| 0 <= i < memories.len() && memories[i] == m;
        memories.lemma_filter_contains(keep, i);
    }
    let out = candidates(memories, last);
    assert forall|i: int, j: int| 0 <= i < j < out.len() implies (#[trigger] out[i]).created_at
        <= (#[trigger] out[j]).created_at by {
        assert(!rank(out[j], out[i]));
    }
}

/// What enrichment stores is tagged as its own, once, behind its other tags; it is
/// no more confident than allowed, and as confident as it was where that is
/// allowed. Nothing else of it changes.
pub proof fn law_enriched(m: MemoryView, max: Single)
    ensures
        enriched(m, max).tags.contains("source:enrichment"@),
        m.tags.contains("source:enrichment"@) ==> enriched(m, max).tags == m.tags,
        !m.tags.contains("source:enrichment"@) ==> enriched(m, max).tags == m.tags.push(
            "source:enrichment"@,
        ),
        !max.less(enriched(m, max).confidence),
        !max.less(m.confidence) ==> enriched(m, max).confidence == m.confidence,
        max.less(m.confidence) ==> enriched(m, max).confidence == max,
        enriched(m, max) == (MemoryView {
            tags: enriched(m, max).tags,
            confidence: enriched(m, max).confidence,
            ..m
        }),
{
    if !m.tags.contains("source:enrichment"@) {
        assert(enriched(m, max).tags[m.tags.len() as int] == "source:enrichment"@);
    }
}

/// A derived memory has one edge to each of its sources, in their order, with the
/// label given and a weight of 0.8.
pub proof fn law_derived_edges(
    from: MemoryId,
    sources: Seq<MemoryId>,
    label: Seq<char>,
    now: Timestamp,
)
    ensures
        derived_edges(from, sources, label, now).len() == sources.len(),
        forall|i: int|
            0 <= i < sources.len() ==> {
                let e = #[trigger] derived_edges(from, sources, label, now)[i];
                &&& e.source == from
                &&& e.target == sources[i]
                &&& e.edge_type == EdgeType::Derived
                &&& e.weight.bits == 0x3f4c_cccd
                &&& e.created_at == now
                &&& e.valid_until is None
                &&& e.label == Some(label)
            },
{
}

/// What the first tag with a prefix holds behind it.
pub proof fn law_first_after(tags: Seq<Seq<char>>, prefix: Seq<char>, rest: Seq<char>, k: int)
    requires
        forall|i: int|
            0 <= i < tags.len() && i < k ==> !starts_with(#[trigger] tags[i], prefix),
    ensures
        0 <= k < tags.len() && tags[k] == prefix + rest ==> first_after(tags, prefix) == Some(rest),
        k >= tags.len() ==> first_after(tags, prefix) is None,
    decreases tags.len(),
{
    if tags.len() > 0 {
        if 0 <= k < tags.len() {
            law_prefix(tags[k], prefix, rest);
        }
        if k > 0 {
            law_prefix(tags[0], prefix, rest);
            assert(!starts_with(tags[0], prefix));
            let t = tags.drop_first();
            assert forall|i: int| 0 <= i < t.len() && i < k - 1 implies !starts_with(
                #[trigger] t[i],
                prefix,
            ) by {
                assert(t[i] == tags[i + 1]);
            }
            law_first_after(t, prefix, rest, k - 1);
        }
    }
}

/// A memory adds the entity that its first `entity:` tag names to its category, with
/// the first 200 characters of its content, unless it is a summary itself. Its
/// category is the type that its tags give, in lower case, else `general`.
pub proof fn law_member(m: MemoryView)
    ensures
        m.tags.contains("community_summary"@) ==> member_of(m) is None,
        first_after(m.tags, "entity:"@) is None ==> member_of(m) is None,
        !m.tags.contains("community_summary"@) && first_after(m.tags, "entity:"@) is Some ==> (
        member_of(m) matches Some(member) && member.0 == first_after(m.tags, "entity:"@)->0
            && member.1.is_prefix_of(m.content) && (m.content.len() <= 200 ==> member.1
            == m.content) && (m.content.len() > 200 ==> member.1.len() == 200)),
        first_after(m.tags, "entity_type:"@) matches Some(t) ==> category_of(m)
            == crate::text::lower_form(t),
        first_after(m.tags, "entity_type:"@) is None ==> category_of(m)
            == crate::text::lower_form("general"@),
{
    assert(m.content.take(m.content.len() as int) =~= m.content);
}

/// Whether a category holds a member.
pub open spec fn in_category(
    all: Seq<(Seq<char>, Seq<(Seq<char>, Seq<char>)>)>,
    category: Seq<char>,
    member: (Seq<char>, Seq<char>),
) -> bool {
    exists|c: int|
        0 <= c < all.len() && (#[trigger] all[c]).0 == category && all[c].1.contains(member)
}

/// Every memory that adds an entity adds it to its category. The communities are
/// the categories with two or more entities.
pub proof fn law_categories(memories: Seq<MemoryView>, k: int)
    requires
        0 <= k < memories.len(),
        member_of(memories[k]) is Some,
    ensures
        in_category(
            categories(memories),
            category_of(memories[k]),
            member_of(memories[k])->0,
        ),
    decreases memories.len(),
{
    let head = memories.drop_last();
    let rest = categories(head);
    let all = categories(memories);
    let last = memories.last();
    if k < head.len() {
        law_categories(head, k);
        let category = category_of(memories[k]);
        let member = member_of(memories[k])->0;
        let c = choose|c: int|
            0 <= c < rest.len() && (#[trigger] rest[c]).0 == category && rest[c].1.contains(member);
        law_key_index(rest, category_of(last));
        let i = choose|i: int| 0 <= i < rest[c].1.len() && rest[c].1[i] == member;
        assert(all[c].0 == category);
        assert(all[c].1[i] == member);
    } else {
        law_key_index(rest, category_of(last));
        let member = member_of(last)->0;
        match key_index(rest, category_of(last)) {
            Some(c) => {
                assert(all[c].0 == category_of(last));
                assert(all[c].1[rest[c].1.len() as int] == member);
            },
            None => {
                assert(all[rest.len() as int].1[0] == member);
            },
        }
    }
}

/// The communities are the categories with two or more entities, and no others.
pub proof fn law_communities(
    memories: Seq<MemoryView>,
    c: (Seq<char>, Seq<(Seq<char>, Seq<char>)>),
)
    ensures
        communities(memories).contains(c) <==> categories(memories).contains(c) && c.1.len() >= 2,
{
    let keep = |x: (Seq<char>, Seq<(Seq<char>, Seq<char>)>)| x.1.len() >= 2;
    let all = categories(memories);
    let out = communities(memories);
    if out.contains(c) {
        let i = choose|i: int| 0 <= i < out.len() && out[i] == c;
        all.lemma_filter_pred(keep, i);
        all.lemma_filter_contains_rev(keep, c);
    }
    if all.contains(c) && c.1.len() >= 2 {
        let i = choose|i: int| 0 <= i < all.len() && all[i] == c;
        all.lemma_filter_contains(keep, i);
    }
}

/// A profile is made of the memories that are semantic or procedural, not below a
/// confidence of 0.5, neither a summary nor of an entity, in their order, each by its
/// first 300 characters. `places` are the places of those memories.
pub proof fn law_profile_facts(memories: Seq<MemoryView>) -> (places: Seq<int>)
    ensures
        facts_of(memories).len() == places.len(),
        forall|k: int|
            0 <= k < memories.len() ==> (#[trigger] places.contains(k) <==> {
                let m = memories[k];
                &&& m.memory_type == MemoryType::Semantic || m.memory_type
                    == MemoryType::Procedural
                &&& !m.confidence.less(Single { bits: 0x3f00_0000 })
                &&& !m.tags.contains("community_summary"@)
                &&& !(exists|t: int|
                    0 <= t < m.tags.len() && starts_with(#[trigger] m.tags[t], "entity:"@))
            }),
        forall|i: int, j: int|
            0 <= i < j < places.len() ==> #[trigger] places[i] < #[trigger] places[j],
        forall|i: int|
            0 <= i < places.len() ==> 0 <= #[trigger] places[i] < memories.len() && facts_of(
                memories,
            )[i] == memories[places[i]].content.take(
                if memories[places[i]].content.len() < 300 {
                    memories[places[i]].content.len() as int
                } else {
                    300
                },
            ),
    decreases memories.len(),
{
    if memories.len() == 0 {
        Seq::empty()
    } else {
        let head = memories.drop_last();
        let n = memories.len() - 1;
        let before = law_profile_facts(head);
        let rest = facts_of(head);
        let all = facts_of(memories);
        assert forall|i: int| 0 <= i < before.len() implies 0 <= #[trigger] before[i]
            < memories.len() && all[i] == memories[before[i]].content.take(
            if memories[before[i]].content.len() < 300 {
                memories[before[i]].content.len() as int
            } else {
                300
            },
        ) by {
            assert(head[before[i]] == memories[before[i]]);
            assert(all[i] == rest[i]);
        }
        assert forall|k: int| 0 <= k < n implies (#[trigger] before.contains(k) <==> {
            let m = memories[k];
            &&& m.memory_type == MemoryType::Semantic || m.memory_type == MemoryType::Procedural
            &&& !m.confidence.less(Single { bits: 0x3f00_0000 })
            &&& !m.tags.contains("community_summary"@)
            &&& !(exists|t: int|
                0 <= t < m.tags.len() && starts_with(#[trigger] m.tags[t], "entity:"@))
        }) by {
            assert(head[k] == memories[k]);
        }
        lemma_places_grow(before, n);
        if is_profile_fact(memories[n]) {
            before.push(n)
        } else {
            before
        }
    }
}

// ---------------------------------------------------------------------------
// Contexts
// ---------------------------------------------------------------------------
/// A context of 300 bytes or more stays as it is. A shorter one is followed by a
/// separator and the beginning of the content, up to 500 bytes in all where the
/// context leaves room for that.
pub proof fn law_extended(context: Seq<char>, content: Seq<char>)
    ensures
        byte_count(context) >= 300 ==> extended(context, content) == Some(context),
        byte_count(context) < 300 && extended(context, content) is Some ==> {
            let more = extended(context, content)->0;
            &&& (context + " | "@).is_prefix_of(more)
            &&& byte_count(context + " | "@) + byte_count(content) <= 500 ==> more == context
                + " | "@ + content
        },
{
    if byte_count(context) < 300 && extended(context, content) is Some {
        let open = context + " | "@;
        let limit = 500 - byte_count(open);
        if byte_count(open) + byte_count(content) <= 500 {
            crate::contexts::law_byte_prefix(content, limit);
        }
        let more = extended(context, content)->0;
        assert(open =~= more.subrange(0, open.len() as int));
    }
}

} // verus!
