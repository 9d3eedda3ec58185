//! What names, columns, links and entities hold, in terms of memories and mentions.
use crate::codec::{
    columns_of, dimension_conflict, edge_columns_of, edge_of, edge_type_name, edge_type_of,
    effective_dimension_of, index_changes, memory_of, memory_type_name, memory_type_of,
    signed_bits, EdgeColumns, MemoryColumns,
};
use crate::entities::{
    aliases_of_mentions, entities_for, entity_map, entity_name, first_after, group_names,
    is_bundle, link_edge, linked, links_among, links_for, links_from, memories_of,
    missing_links, names_in, other_names, with_memory, EntityBundle,
};
use crate::entity_extraction::{
    alias_list, canonical_name, capitalized, name_part, plain_phrase, title_case, unlabelled,
    with_alias, without_context, without_section, Mention,
};
use crate::float::Single;
use crate::ids::uuid_text;
use crate::keyed::{key_index, law_key_index};
use crate::memory::{EdgeType, EdgeView, MemoryId, MemoryType, MemoryView, Timestamp};
use crate::order::views_of;
use crate::records::{AliasColumns, EntityColumns};
use crate::text::{
    is_ascii_letter, is_ascii_upper, lower_form, split_at_first, starts_with, trimmed,
};
use crate::text_laws::law_prefix;
use vstd::prelude::*;

verus! {

// ---------------------------------------------------------------------------
// Columns
// ---------------------------------------------------------------------------
/// The texts of the types of memories and edges. A text that is none of them reads
/// as an episode, or as a related edge.
pub proof fn law_type_texts(s: Seq<char>)
    ensures
        memory_type_name(MemoryType::Episodic) == "Episodic"@,
        memory_type_name(MemoryType::Semantic) == "Semantic"@,
        memory_type_name(MemoryType::Procedural) == "Procedural"@,
        memory_type_name(MemoryType::AntiPattern) == "AntiPattern"@,
        memory_type_name(MemoryType::Reasoning) == "Reasoning"@,
        memory_type_name(MemoryType::Correction) == "Correction"@,
        edge_type_name(EdgeType::Caused) == "Caused"@,
        edge_type_name(EdgeType::Before) == "Before"@,
        edge_type_name(EdgeType::Related) == "Related"@,
        edge_type_name(EdgeType::Contradicts) == "Contradicts"@,
        edge_type_name(EdgeType::Supports) == "Supports"@,
        edge_type_name(EdgeType::Supersedes) == "Supersedes"@,
        edge_type_name(EdgeType::Derived) == "Derived"@,
        edge_type_name(EdgeType::PartOf) == "PartOf"@,
        memory_type_name(memory_type_of(s)) == s || memory_type_of(s) == MemoryType::Episodic,
        edge_type_name(edge_type_of(s)) == s || edge_type_of(s) == EdgeType::Related,
{
}

/// Each part of a memory stands in the column of its name: identities as their
/// texts, times by their bits, everything else as it is. An empty embedding is no
/// value.
pub proof fn law_memory_columns(m: MemoryView)
    ensures
        ({
            let row = columns_of(m);
            &&& row.id == uuid_text(m.id.value)
            &&& row.agent_id == uuid_text(m.agent_id.value)
            &&& row.space_id == uuid_text(m.space_id.value)
            &&& row.content == m.content
            &&& row.embedding is None <==> m.embedding.len() == 0
            &&& row.created_at == signed_bits(m.created_at)
            &&& row.accessed_at == signed_bits(m.accessed_at)
            &&& row.access_count == m.access_count
            &&& row.salience == m.salience
            &&& row.confidence == m.confidence
            &&& row.attributes == m.attributes
            &&& row.valid_from is Some <==> m.valid_from is Some
            &&& row.valid_until is Some <==> m.valid_until is Some
            &&& m.valid_from is Some ==> row.valid_from->0 == signed_bits(m.valid_from->0)
            &&& m.valid_until is Some ==> row.valid_until->0 == signed_bits(m.valid_until->0)
        }),
{
}

/// Each part of a memory is read from the column of its name.
pub proof fn law_memory_read(row: MemoryColumns, tags: Seq<Seq<char>>)
    ensures
        ({
            let m = memory_of(row, tags);
            &&& m.content == row.content
            &&& m.salience == row.salience
            &&& m.confidence == row.confidence
            &&& m.tags == tags
            &&& m.valid_from is Some <==> row.valid_from is Some
            &&& m.valid_until is Some <==> row.valid_until is Some
            &&& row.embedding is None ==> m.embedding.len() == 0
            &&& m.id.value == crate::ids::id_or_nil(row.id) as u128
            &&& m.agent_id.value == crate::ids::id_or_nil(row.agent_id) as u128
            &&& m.space_id.value == crate::ids::id_or_nil(row.space_id) as u128
        }),
{
}

/// Each part of an edge stands in the column of its name, and is read from it.
pub proof fn law_edge_columns(e: EdgeView, row: EdgeColumns)
    ensures
        edge_columns_of(e).source == uuid_text(e.source.value),
        edge_columns_of(e).target == uuid_text(e.target.value),
        edge_columns_of(e).weight == e.weight,
        edge_columns_of(e).label == e.label,
        edge_columns_of(e).created_at == signed_bits(e.created_at),
        e.valid_from is Some ==> edge_columns_of(e).valid_from == Some(
            signed_bits(e.valid_from->0) as i64,
        ),
        e.valid_until is Some ==> edge_columns_of(e).valid_until == Some(
            signed_bits(e.valid_until->0) as i64,
        ),
        e.valid_from is None ==> edge_columns_of(e).valid_from is None,
        e.valid_until is None ==> edge_columns_of(e).valid_until is None,
        edge_of(row).source.value == crate::ids::id_or_nil(row.source) as u128,
        edge_of(row).target.value == crate::ids::id_or_nil(row.target) as u128,
        edge_of(row).weight == row.weight,
        edge_of(row).label == row.label,
        edge_of(row).valid_from is Some <==> row.valid_from is Some,
        edge_of(row).valid_until is Some <==> row.valid_until is Some,
{
}

/// An embedding conflicts with an index only where both have a dimension and these
/// differ. An index is built anew only for a dimension that it does not have. What
/// is stored as the dimension counts unless it is no number, or 0.
pub proof fn law_dimensions(dim: usize, len: usize, stored: Seq<char>)
    ensures
        dim == 0 || len == 0 || dim == len ==> !dimension_conflict(dim, len as nat),
        dim != 0 && len != 0 && dim != len ==> dimension_conflict(dim, len as nat),
        index_changes(dim, len) <==> len != 0 && len != dim,
        effective_dimension_of(None, dim) == dim,
        crate::codec::count_of(stored) is None ==> effective_dimension_of(Some(stored), dim) == dim,
        crate::codec::count_of(stored) == Some(0nat) ==> effective_dimension_of(Some(stored), dim)
            == dim,
        crate::codec::count_of(stored) is Some && crate::codec::count_of(stored)->0 > 0
            ==> effective_dimension_of(Some(stored), dim) == crate::codec::count_of(stored)->0,
{
}

// ---------------------------------------------------------------------------
// Names
// ---------------------------------------------------------------------------
/// A phrase without a letter names nothing. One with a capital letter is a name as
/// it is; in one without, each word gets a capital first letter.
pub proof fn law_canonical_name(raw: Seq<char>)
    ensures
        ({
            let phrase = unlabelled(plain_phrase(raw));
            let letter = exists|i: int| 0 <= i < phrase.len() && is_ascii_letter(#[trigger] phrase[i]);
            let capital = exists|i: int|
                0 <= i < phrase.len() && is_ascii_upper(#[trigger] phrase[i]);
            &&& !letter ==> canonical_name(raw) is None
            &&& letter && capital ==> canonical_name(raw) == Some(phrase)
            &&& letter && !capital ==> canonical_name(raw) == Some(title_case(phrase))
        }),
{
}

/// A capitalized word differs from the word at most in its first letter, which is
/// the capital one.
pub proof fn law_capitalized(word: Seq<char>)
    ensures
        capitalized(word).len() == word.len(),
        forall|i: int| 1 <= i < word.len() ==> #[trigger] capitalized(word)[i] == word[i],
        word.len() > 0 ==> capitalized(word)[0] == crate::text::ascii_upper(word[0]),
{
}

/// The labels `Project ` and `Name ` are no part of a name.
pub proof fn law_unlabelled(name: Seq<char>)
    ensures
        unlabelled("Project "@ + name) == name,
        unlabelled("Name "@ + name) == name,
        !starts_with(name, "Project "@) && !starts_with(name, "Name "@) ==> unlabelled(name)
            == name,
{
    reveal_strlit("Project ");
    reveal_strlit("Name ");
    law_prefix("Project "@ + name, "Project "@, name);
    law_prefix("Name "@ + name, "Name "@, name);
    law_prefix(name, "Project "@, name);
    law_prefix(name, "Name "@, name);
    if starts_with("Name "@ + name, "Project "@) {
        assert(("Name "@ + name).subrange(0, 8)[0] == 'N');
        assert("Project "@[0] == 'P');
    }
    assert(!starts_with("Name "@ + name, "Project "@));
    law_prefix("Name "@ + name, "Project "@, name);
}

/// The aliases of a name are how it is written, the name and its lower-case form,
/// in this order, each once, as far as they are not empty and there is room.
pub proof fn law_alias_list(raw: Seq<char>, canonical: Seq<char>, max: int)
    requires
        max >= 3,
    ensures
        ({
            let written = crate::text::trimmed_end(trimmed(raw), crate::text::CharClass::Stop);
            let all = alias_list(raw, canonical, max);
            &&& written.len() > 0 ==> all.contains(written)
            &&& canonical.len() > 0 ==> all.contains(canonical)
            &&& lower_form(canonical).len() > 0 ==> all.contains(lower_form(canonical))
            &&& forall|x: Seq<char>| #[trigger]
                all.contains(x) ==> x == written || x == canonical || x == lower_form(canonical)
        }),
{
    let written = crate::text::trimmed_end(trimmed(raw), crate::text::CharClass::Stop);
    let none = Seq::<Seq<char>>::empty();
    let one = with_alias(none, written, max);
    let two = with_alias(one, canonical, max);
    let all = alias_list(raw, canonical, max);
    assert(all == with_alias(two, lower_form(canonical), max));
    if written.len() > 0 {
        assert(one[0] == written);
        assert(two[0] == written);
        assert(all[0] == written);
    }
    if canonical.len() > 0 {
        if one.contains(canonical) {
            let i = choose|i: int| 0 <= i < one.len() && one[i] == canonical;
            assert(two[i] == canonical);
            assert(all[i] == canonical);
        } else {
            assert(two[one.len() as int] == canonical);
            assert(all[one.len() as int] == canonical);
        }
    }
    if lower_form(canonical).len() > 0 && !two.contains(lower_form(canonical)) {
        assert(all[two.len() as int] == lower_form(canonical));
    }
}

/// The name of a project ends before ` is `, else before ` uses `, else before
/// ` includes `.
pub proof fn law_name_part(raw: Seq<char>)
    ensures
        split_at_first(raw, " is "@) matches Some((head, _)) ==> name_part(raw) == head,
        split_at_first(raw, " is "@) is None ==> {
            &&& split_at_first(raw, " uses "@) matches Some((head, _)) ==> name_part(raw) == head
            &&& split_at_first(raw, " uses "@) is None ==> {
                &&& split_at_first(raw, " includes "@) matches Some((head, _)) ==> name_part(raw)
                    == head
                &&& split_at_first(raw, " includes "@) is None ==> name_part(raw) == raw
            }
        },
{
}

/// A line counts without its speaker, and without the section before it.
pub proof fn law_context_dropped(line: Seq<char>, rest: Seq<char>)
    ensures
        without_section(line) == "User:"@ + rest ==> without_context(line) == trimmed(rest),
        without_section(line) == "Assistant:"@ + rest ==> without_context(line) == trimmed(rest),
        without_section(line) == "System:"@ + rest ==> without_context(line) == trimmed(rest),
        !starts_with(without_section(line), "User:"@) && !starts_with(
            without_section(line),
            "Assistant:"@,
        ) && !starts_with(without_section(line), "System:"@) ==> without_context(line)
            == without_section(line),
        !starts_with(trimmed(line), "["@) ==> without_section(line) == trimmed(line),
{
    let whole = without_section(line);
    reveal_strlit("User:");
    reveal_strlit("Assistant:");
    reveal_strlit("System:");
    law_prefix(whole, "User:"@, rest);
    law_prefix(whole, "Assistant:"@, rest);
    law_prefix(whole, "System:"@, rest);
    law_prefix(trimmed(line), "["@, rest);
    if whole == "Assistant:"@ + rest {
        assert(whole[0] == 'A');
        if starts_with(whole, "User:"@) {
            assert(whole.subrange(0, 5)[0] == 'U');
        }
    }
    if whole == "System:"@ + rest {
        assert(whole[0] == 'S');
        if starts_with(whole, "User:"@) {
            assert(whole.subrange(0, 5)[0] == 'U');
        }
        if starts_with(whole, "Assistant:"@) {
            assert(whole.subrange(0, 10)[0] == 'A');
        }
    }
}

// ---------------------------------------------------------------------------
// Linking mentions
// ---------------------------------------------------------------------------
/// Each mention has one entity and one link, in their order. A known entity keeps
/// its identity, type, name and age, and is not less confident than the mention; a
/// new one has those of the mention. The link joins the memory to that entity, in
/// the role of the mention, else as mentioned, with its confidence and evidence.
pub proof fn law_bundle(
    b: EntityBundle,
    memory_id: MemoryId,
    mentions: Seq<Mention>,
    existing: Seq<Option<EntityColumns>>,
    ids: Seq<Seq<char>>,
    now: Timestamp,
    i: int,
)
    requires
        is_bundle(b, memory_id, mentions, existing, ids, now),
        mentions.len() == existing.len(),
        mentions.len() == ids.len(),
        0 <= i < mentions.len(),
    ensures
        b.entities@.len() == mentions.len(),
        b.links@.len() == mentions.len(),
        ({
            let e = b.entities@[i]@;
            let l = b.links@[i]@;
            let m = mentions[i];
            &&& existing[i] matches Some(known) ==> {
                &&& e.entity_id == known.entity_id
                &&& e.entity_type == known.entity_type
                &&& e.canonical == known.canonical
                &&& e.created_at == known.created_at
                &&& !e.confidence.less(known.confidence)
                &&& !e.confidence.less(m.confidence)
                &&& e.confidence == known.confidence || e.confidence == m.confidence
            }
            &&& existing[i] is None ==> {
                &&& e.entity_id == ids[i]
                &&& e.entity_type == m.entity_type
                &&& e.canonical == m.canonical
                &&& e.created_at == now
                &&& e.confidence == m.confidence
            }
            &&& e.updated_at == now
            &&& l.memory_id == memory_id
            &&& l.entity_id == e.entity_id
            &&& l.confidence == m.confidence
            &&& l.evidence == m.evidence
            &&& m.role is Some ==> l.role == m.role
            &&& m.role is None ==> l.role == Some("mentioned"@)
        }),
        forall|a: int|
            0 <= a < mentions[i].aliases.len() ==> has_alias(
                views_of(b.aliases@),
                b.entities@[i]@.entity_id,
                #[trigger] mentions[i].aliases[a],
                mentions[i].confidence,
            ),
{
    let entities = entities_for(mentions, existing, ids, now);
    assert(b.entities@.len() == views_of(b.entities@).len());
    assert(b.links@.len() == views_of(b.links@).len());
    assert(views_of(b.entities@)[i] == entities[i]);
    assert(views_of(b.links@)[i] == links_for(memory_id, mentions, entities)[i]);
    assert forall|a: int| 0 <= a < mentions[i].aliases.len() implies has_alias(
        views_of(b.aliases@),
        b.entities@[i]@.entity_id,
        #[trigger] mentions[i].aliases[a],
        mentions[i].confidence,
    ) by {
        lemma_alias_there(mentions, entities, i, a);
    }
}

/// Whether some aliases hold one of an entity, found by the linker.
pub open spec fn has_alias(
    all: Seq<AliasColumns>,
    entity_id: Seq<char>,
    alias: Seq<char>,
    confidence: Single,
) -> bool {
    exists|k: int|
        0 <= k < all.len() && (#[trigger] all[k]).entity_id == entity_id && all[k].alias == alias
            && all[k].confidence == confidence && all[k].source == Some("surface_linker"@)
}

proof fn lemma_alias_there(
    mentions: Seq<Mention>,
    entities: Seq<EntityColumns>,
    i: int,
    a: int,
)
    requires
        0 <= i < mentions.len(),
        0 <= a < mentions[i].aliases.len(),
    ensures
        has_alias(
            aliases_of_mentions(mentions, entities),
            entities[i].entity_id,
            mentions[i].aliases[a],
            mentions[i].confidence,
        ),
    decreases mentions.len(),
{
    let head = mentions.drop_last();
    let rest = aliases_of_mentions(head, entities);
    let all = aliases_of_mentions(mentions, entities);
    if i < head.len() {
        lemma_alias_there(head, entities, i, a);
        let k = choose|k: int|
            0 <= k < rest.len() && (#[trigger] rest[k]).entity_id == entities[i].entity_id
                && rest[k].alias == head[i].aliases[a] && rest[k].confidence == head[i].confidence
                && rest[k].source == Some("surface_linker"@);
        assert(all[k] == rest[k]);
    } else {
        assert(all[rest.len() + a].alias == mentions[i].aliases[a]);
    }
}

// ---------------------------------------------------------------------------
// Links between memories
// ---------------------------------------------------------------------------
/// A planned link joins an earlier memory of an entity to a later one that it is not
/// linked to yet, as related, with the weight given and the name of the entity in
/// its label.
pub proof fn law_links_planned(
    ids: Seq<MemoryId>,
    edges: Seq<EdgeView>,
    canonical: Seq<char>,
    weight: Single,
    now: Timestamp,
    k: int,
)
    requires
        0 <= k < missing_links(ids, edges, canonical, weight, now).len(),
    ensures
        ({
            let e = missing_links(ids, edges, canonical, weight, now)[k];
            &&& e.edge_type == EdgeType::Related
            &&& e.weight == weight
            &&& e.created_at == now
            &&& e.valid_until is None
            &&& e.label == Some("entity_link:"@ + canonical)
            &&& !linked(edges, e.source, e.target)
            &&& exists|i: int, j: int|
                0 <= i < j < ids.len() && #[trigger] ids[i] == e.source && #[trigger] ids[j]
                    == e.target
        }),
{
    lemma_among(ids, edges, ids.len(), canonical, weight, now, k);
}

proof fn lemma_from(
    ids: Seq<MemoryId>,
    edges: Seq<EdgeView>,
    i: int,
    n: nat,
    canonical: Seq<char>,
    weight: Single,
    now: Timestamp,
    k: int,
)
    requires
        0 <= i,
        i + n < ids.len(),
        0 <= k < links_from(ids, edges, i, n, canonical, weight, now).len(),
    ensures
        exists|j: int|
            i < j <= i + n && links_from(ids, edges, i, n, canonical, weight, now)[k] == link_edge(
                ids[i],
                #[trigger] ids[j],
                canonical,
                weight,
                now,
            ) && !linked(edges, ids[i], ids[j]),
    decreases n,
{
    let rest = links_from(ids, edges, i, (n - 1) as nat, canonical, weight, now);
    if k < rest.len() {
        lemma_from(ids, edges, i, (n - 1) as nat, canonical, weight, now, k);
        let j = choose|j: int|
            i < j <= i + (n - 1) && rest[k] == link_edge(
                ids[i],
                #[trigger] ids[j],
                canonical,
                weight,
                now,
            ) && !linked(edges, ids[i], ids[j]);
        assert(i < j <= i + n && !linked(edges, ids[i], ids[j]));
    } else {
        assert(!linked(edges, ids[i], ids[i + n]));
    }
}

proof fn lemma_among(
    ids: Seq<MemoryId>,
    edges: Seq<EdgeView>,
    m: nat,
    canonical: Seq<char>,
    weight: Single,
    now: Timestamp,
    k: int,
)
    requires
        m <= ids.len(),
        0 <= k < links_among(ids, edges, m, canonical, weight, now).len(),
    ensures
        ({
            let e = links_among(ids, edges, m, canonical, weight, now)[k];
            &&& e == link_edge(e.source, e.target, canonical, weight, now)
            &&& !linked(edges, e.source, e.target)
            &&& exists|i: int, j: int|
                0 <= i < j < ids.len() && #[trigger] ids[i] == e.source && #[trigger] ids[j]
                    == e.target
        }),
    decreases m,
{
    let rest = links_among(ids, edges, (m - 1) as nat, canonical, weight, now);
    let i = m - 1;
    let n = (ids.len() - m) as nat;
    let last = links_from(ids, edges, i, n, canonical, weight, now);
    let all = links_among(ids, edges, m, canonical, weight, now);
    if k < rest.len() {
        lemma_among(ids, edges, (m - 1) as nat, canonical, weight, now, k);
        assert(all[k] == rest[k]);
    } else {
        assert(all[k] == last[k - rest.len()]);
        lemma_from(ids, edges, i, n, canonical, weight, now, k - rest.len());
        let j = choose|j: int|
            i < j <= i + n && last[k - rest.len()] == link_edge(
                ids[i],
                #[trigger] ids[j],
                canonical,
                weight,
                now,
            ) && !linked(edges, ids[i], ids[j]);
        assert(ids[i] == all[k].source && ids[j] == all[k].target);
    }
}

/// A memory is among those of the entity that its first `entity:` tag names.
pub proof fn law_entity_map(memories: Seq<MemoryView>, k: int)
    requires
        0 <= k < memories.len(),
        first_after(memories[k].tags, "entity:"@) is Some,
    ensures
        memories_of(
            entity_map(memories),
            entity_name(first_after(memories[k].tags, "entity:"@)->0),
        ).contains(memories[k].id),
    decreases memories.len(),
{
    let head = memories.drop_last();
    let rest = entity_map(head);
    let last = memories.last();
    let name = entity_name(first_after(memories[k].tags, "entity:"@)->0);
    if k < head.len() {
        law_entity_map(head, k);
        if let Some(raw) = first_after(last.tags, "entity:"@) {
            lemma_with_memory(rest, entity_name(raw), last.id, name, memories[k].id);
        }
    } else {
        lemma_with_memory(rest, name, last.id, name, last.id);
    }
}

proof fn lemma_with_memory(
    map: Seq<(Seq<char>, Seq<MemoryId>)>,
    name: Seq<char>,
    id: MemoryId,
    other: Seq<char>,
    x: MemoryId,
)
    ensures
        memories_of(with_memory(map, name, id), name).contains(id),
        memories_of(map, other).contains(x) ==> memories_of(
            with_memory(map, name, id),
            other,
        ).contains(x),
{
    let out = with_memory(map, name, id);
    law_key_index(map, name);
    law_key_index(map, other);
    law_key_index(out, name);
    law_key_index(out, other);
    match key_index(map, name) {
        Some(i) => {
            assert forall|j: int| 0 <= j < out.len() implies (#[trigger] out[j]).0 == map[j].0 by {}
            assert(key_index(out, name) == Some(i)) by {
                assert(out[i].0 == name);
                let p = key_index(out, name)->0;
                if p < i {
                    assert(map[p].0 != name);
                } else if p > i {
                    assert(out[i].0 != name);
                }
            }
            assert(out[i].1[map[i].1.len() as int] == id);
            if let Some(q) = key_index(map, other) {
                assert(key_index(out, other) == Some(q)) by {
                    assert(out[q].0 == other);
                    let p = key_index(out, other)->0;
                    if p < q {
                        assert(map[p].0 != other);
                    } else if p > q {
                        assert(out[q].0 != other);
                    }
                }
                if map[q].1.contains(x) {
                    let r = choose|r: int| 0 <= r < map[q].1.len() && map[q].1[r] == x;
                    assert(out[q].1[r] == x);
                }
            }
        },
        None => {
            let n = map.len() as int;
            assert(out[n].0 == name);
            assert(key_index(out, name) == Some(n)) by {
                let p = key_index(out, name)->0;
                if p < n {
                    assert(map[p].0 != name);
                } else if p > n {
                    assert(out[n].0 != name);
                }
            }
            assert(out[n].1[0] == id);
            if let Some(q) = key_index(map, other) {
                assert(key_index(out, other) == Some(q)) by {
                    assert(out[q] == map[q]);
                    let p = key_index(out, other)->0;
                    if p < q {
                        assert(out[p] == map[p]);
                        assert(map[p].0 != other);
                    } else if p > q {
                        assert(out[q].0 != other);
                    }
                }
            }
        },
    }
}

/// A merge group goes by its name and its aliases, all in lower case. Its aliases
/// are those that are not its name in another case.
pub proof fn law_groups(canonical: Seq<char>, aliases: Seq<Seq<char>>, a: Seq<char>)
    ensures
        group_names(canonical, aliases).len() == aliases.len() + 1,
        group_names(canonical, aliases)[0] == lower_form(canonical),
        forall|i: int|
            0 <= i < aliases.len() ==> #[trigger] group_names(canonical, aliases)[i + 1]
                == lower_form(aliases[i]),
        other_names(canonical, aliases).contains(a) <==> aliases.contains(a) && lower_form(a)
            != lower_form(canonical),
{
    let keep = |x: Seq<char>| lower_form(x) != lower_form(canonical);
    let out = other_names(canonical, aliases);
    if out.contains(a) {
        let i = choose|i: int| 0 <= i < out.len() && out[i] == a;
        aliases.lemma_filter_pred(keep, i);
        aliases.lemma_filter_contains_rev(keep, a);
    }
    if aliases.contains(a) && keep(a) {
        let i = choose|i: int| 0 <= i < aliases.len() && aliases[i] == a;
        aliases.lemma_filter_contains(keep, i);
    }
}

/// Every `entity:` tag gives its name.
pub proof fn law_names_given(tags: Seq<Seq<char>>, raw: Seq<char>, k: int)
    requires
        0 <= k < tags.len(),
        tags[k] == "entity:"@ + raw,
    ensures
        names_in(tags).contains(trimmed(lower_form(raw))),
    decreases tags.len(),
{
    let head = tags.drop_last();
    let rest = names_in(head);
    let all = names_in(tags);
    let name = trimmed(lower_form(raw));
    law_prefix(tags[k], "entity:"@, raw);
    if k < head.len() {
        law_names_given(head, raw, k);
        let i = choose|i: int| 0 <= i < rest.len() && rest[i] == name;
        assert(all[i] == name);
    } else {
        assert(all[rest.len() as int] == name);
    }
}

} // verus!
