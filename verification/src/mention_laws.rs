//! How mentions become entities.
use crate::entity_extraction::{
    accepted, added, added_all, all_mentions, collected, extracted, line_mentions, mention_key,
    merged, tag_mentions, text_mentions, type_for_tags, EntityExtractionConfig, ExtractedEntity,
    Mention,
};
use crate::keyed::{key_index, law_key_index};
use crate::order::{law_sort_keeps_items, Ranked};
use crate::text::lines;
use vstd::prelude::*;
use vstd::utf8::encode_utf8;

verus! {

/// A mention counts if and only if it is not less confident than is asked for and
/// its name is neither too short nor too long in bytes.
pub proof fn law_mention_counts(config: EntityExtractionConfig, m: Mention)
    ensures
        m.confidence.less(config.min_confidence) ==> !accepted(config, m),
        encode_utf8(m.canonical).len() < config.min_phrase_chars ==> !accepted(config, m),
        encode_utf8(m.canonical).len() > config.max_phrase_chars ==> !accepted(config, m),
        !m.confidence.less(config.min_confidence) && encode_utf8(m.canonical).len()
            >= config.min_phrase_chars && encode_utf8(m.canonical).len() <= config.max_phrase_chars
            ==> accepted(config, m),
{
}

/// Two mentions of one entity become one, under the name and the type of the first
/// one. Its confidence is the higher one of the two, its role that of the more
/// confident one where that has one. All aliases of the first one stay.
pub proof fn law_mentions_merge(a: Mention, b: Mention, max: int)
    ensures
        merged(a, b, max).canonical == a.canonical,
        merged(a, b, max).entity_type == a.entity_type,
        a.confidence.less(b.confidence) ==> merged(a, b, max).confidence == b.confidence,
        !a.confidence.less(b.confidence) ==> merged(a, b, max).confidence == a.confidence
            && merged(a, b, max).role == a.role && merged(a, b, max).evidence == a.evidence,
        a.confidence.less(b.confidence) && b.role is Some ==> merged(a, b, max).role == b.role,
        b.role is None ==> merged(a, b, max).role == a.role,
        a.evidence is Some ==> merged(a, b, max).evidence == a.evidence,
        a.evidence is None && a.confidence.less(b.confidence) ==> merged(a, b, max).evidence
            == b.evidence,
        forall|i: int|
            0 <= i < a.aliases.len() ==> #[trigger] merged(a, b, max).aliases[i] == a.aliases[i],
        forall|x: Seq<char>|
            merged(a, b, max).aliases.len() < max && #[trigger] b.aliases.contains(x) ==> merged(
                a,
                b,
                max,
            ).aliases.contains(x),
{
    lemma_aliases_kept(a.aliases, b.aliases, max);
}

proof fn lemma_aliases_kept(list: Seq<Seq<char>>, more: Seq<Seq<char>>, max: int)
    ensures
        crate::entity_extraction::merged_aliases(list, more, max).len() >= list.len(),
        forall|i: int|
            0 <= i < list.len() ==> #[trigger] crate::entity_extraction::merged_aliases(
                list,
                more,
                max,
            )[i] == list[i],
        forall|x: Seq<char>|
            crate::entity_extraction::merged_aliases(list, more, max).len() < max && #[trigger]
                more.contains(x) ==> crate::entity_extraction::merged_aliases(
                list,
                more,
                max,
            ).contains(x),
    decreases more.len(),
{
    if more.len() > 0 {
        let head = more.drop_last();
        lemma_aliases_kept(list, head, max);
        let rest = crate::entity_extraction::merged_aliases(list, head, max);
        let all = crate::entity_extraction::merged_aliases(list, more, max);
        assert forall|i: int| 0 <= i < list.len() implies #[trigger] all[i] == list[i] by {
            assert(rest[i] == list[i]);
        }
        assert forall|x: Seq<char>| all.len() < max && #[trigger] more.contains(x) implies
            all.contains(x) by {
            let k = choose|k: int| 0 <= k < more.len() && more[k] == x;
            if k < head.len() {
                assert(head[k] == x);
                assert(head.contains(x));
                assert(rest.contains(x));
                let i = choose|i: int| 0 <= i < rest.len() && rest[i] == x;
                assert(all[i] == x);
            } else if rest.contains(x) {
                assert(all == rest);
            } else {
                assert(all[rest.len() as int] == x);
            }
        }
    }
}

/// Whether some entries hold an entity that a mention is of, not less confident
/// than the mention.
pub open spec fn entered(entries: Seq<(Seq<char>, Mention)>, m: Mention) -> bool {
    exists|i: int|
        0 <= i < entries.len() && (#[trigger] entries[i]).0 == mention_key(m)
            && !entries[i].1.confidence.less(m.confidence)
}

/// A mention that does not count changes nothing. One that counts is entered, where
/// its entity is known or there is room for one more. Nothing that was entered is
/// lost, and every entity keeps its place.
pub proof fn law_added(
    config: EntityExtractionConfig,
    entries: Seq<(Seq<char>, Mention)>,
    m: Mention,
)
    ensures
        !accepted(config, m) ==> added(config, entries, m) == entries,
        accepted(config, m) && entries.len() < config.max_entities_per_memory ==> entered(
            added(config, entries, m),
            m,
        ),
        accepted(config, m) && (exists|i: int|
            0 <= i < entries.len() && (#[trigger] entries[i]).0 == mention_key(m)) ==> entered(
            added(config, entries, m),
            m,
        ),
        added(config, entries, m).len() >= entries.len(),
        forall|i: int|
            0 <= i < entries.len() ==> (#[trigger] added(config, entries, m)[i]).0 == entries[i].0
                && added(config, entries, m)[i].1.canonical == entries[i].1.canonical
                && !added(config, entries, m)[i].1.confidence.less(entries[i].1.confidence),
        forall|x: Mention| #[trigger] entered(entries, x) ==> entered(added(config, entries, m), x),
{
    let out = added(config, entries, m);
    law_key_index(entries, mention_key(m));
    if accepted(config, m) {
        match key_index(entries, mention_key(m)) {
            Some(k) => {
                assert(out[k].0 == mention_key(m));
                assert(!out[k].1.confidence.less(m.confidence));
            },
            None => {
                if entries.len() < config.max_entities_per_memory {
                    assert(out[entries.len() as int].0 == mention_key(m));
                }
            },
        }
    }
    assert forall|i: int| 0 <= i < entries.len() implies (#[trigger] out[i]).0 == entries[i].0
        && out[i].1.canonical == entries[i].1.canonical && !out[i].1.confidence.less(
        entries[i].1.confidence,
    ) by {}
    assert forall|x: Mention| #[trigger] entered(entries, x) implies entered(out, x) by {
        let i = choose|i: int|
            0 <= i < entries.len() && (#[trigger] entries[i]).0 == mention_key(x)
                && !entries[i].1.confidence.less(x.confidence);
        assert(out[i].0 == mention_key(x));
        assert(!out[i].1.confidence.less(x.confidence));
    }
}

proof fn lemma_all_entered(
    config: EntityExtractionConfig,
    entries: Seq<(Seq<char>, Mention)>,
    mentions: Seq<Mention>,
    k: int,
)
    requires
        0 <= k < mentions.len(),
        accepted(config, mentions[k]),
        added_all(config, entries, mentions).len() < config.max_entities_per_memory,
    ensures
        entered(added_all(config, entries, mentions), mentions[k]),
    decreases mentions.len(),
{
    let head = mentions.drop_last();
    let before = added_all(config, entries, head);
    law_added(config, before, mentions.last());
    if k < head.len() {
        lemma_all_entered(config, entries, head, k);
        assert(head[k] == mentions[k]);
    }
}

/// Where fewer entities come out than may, every mention that counts has its
/// entity, not less confident than the mention.
pub proof fn law_mentions_collected(
    config: EntityExtractionConfig,
    text: Seq<char>,
    tags: Seq<Seq<char>>,
    k: int,
)
    requires
        0 <= k < all_mentions(config, text, tags).len(),
        accepted(config, all_mentions(config, text, tags)[k]),
        collected(config, text, tags).len() < config.max_entities_per_memory,
    ensures
        entered(collected(config, text, tags), all_mentions(config, text, tags)[k]),
{
    lemma_all_entered(config, Seq::empty(), all_mentions(config, text, tags), k);
}

/// The mentions of a memory are those of its tags, followed by those of its lines,
/// line by line.
pub proof fn law_mentions_of_memory(
    config: EntityExtractionConfig,
    text: Seq<char>,
    tags: Seq<Seq<char>>,
    k: int,
)
    requires
        0 <= k < lines(text).len(),
    ensures
        tag_mentions(config, type_for_tags(tags), tags).is_prefix_of(
            all_mentions(config, text, tags),
        ),
        forall|i: int|
            0 <= i < line_mentions(config, lines(text)[k]).len() ==> all_mentions(
                config,
                text,
                tags,
            ).contains(#[trigger] line_mentions(config, lines(text)[k])[i]),
{
    let a = tag_mentions(config, type_for_tags(tags), tags);
    let b = text_mentions(config, lines(text));
    let all = all_mentions(config, text, tags);
    assert(a =~= all.subrange(0, a.len() as int));
    assert forall|i: int| 0 <= i < line_mentions(config, lines(text)[k]).len() implies
        all.contains(#[trigger] line_mentions(config, lines(text)[k])[i]) by {
        let m = line_mentions(config, lines(text)[k])[i];
        lemma_line_among(config, lines(text), k, i);
        let p = choose|p: int| 0 <= p < b.len() && b[p] == m;
        assert(all[a.len() + p] == m);
    }
}

proof fn lemma_line_among(
    config: EntityExtractionConfig,
    all: Seq<Seq<char>>,
    k: int,
    i: int,
)
    requires
        0 <= k < all.len(),
        0 <= i < line_mentions(config, all[k]).len(),
    ensures
        text_mentions(config, all).contains(line_mentions(config, all[k])[i]),
    decreases all.len(),
{
    let head = all.drop_last();
    let rest = text_mentions(config, head);
    let out = text_mentions(config, all);
    let m = line_mentions(config, all[k])[i];
    if k < head.len() {
        lemma_line_among(config, head, k, i);
        let p = choose|p: int| 0 <= p < rest.len() && rest[p] == m;
        assert(out[p] == m);
    } else {
        assert(out[rest.len() + i] == m);
    }
}

/// Extraction that is switched on gives exactly the entities that were collected.
pub proof fn law_extracted_collected(
    config: EntityExtractionConfig,
    text: Seq<char>,
    tags: Seq<Seq<char>>,
)
    requires
        config.enabled,
    ensures
        extracted(config, text, tags).len() == collected(config, text, tags).len(),
        forall|i: int|
            0 <= i < collected(config, text, tags).len() ==> extracted(
                config,
                text,
                tags,
            ).contains((#[trigger] collected(config, text, tags)[i]).1),
{
    let entries = collected(config, text, tags);
    let flat = entries.map_values(|e: (Seq<char>, Mention)| e.1);
    law_sort_keeps_items(flat, |a: Mention, b: Mention| ExtractedEntity::ranks_before(a, b));
    assert forall|i: int| 0 <= i < entries.len() implies extracted(config, text, tags).contains(
        (#[trigger] entries[i]).1,
    ) by {
        assert(flat.contains(flat[i]));
    }
}

} // verus!
