//! Recall: which stored entities a question may mean, how their memories are
//! added to the result of a search, and what is left out of it.
use crate::entity_extraction::{has_letter, EntityExtractionConfig};
use crate::float::Single;
use crate::memory::{EdgeType, ErrorView, MemoryId, MemoryNode, MemoryView, MenteError, Timestamp};
use crate::order::{law_sort_keeps_items, sort_ranked, stable_sorted, views_of, Ranked};
use crate::query::{distinct, has_id};
use crate::records::MemoryEntityLink;
use crate::search::{
    each_once, found_in, law_search_ranks, lemma_sorted_once, positions, Fused, FusedHit,
    ScoredHit,
};
use crate::text::{
    byte_count, byte_len, chars_of, copy_text, has_text, joined, lemma_views_push, lower_form,
    split_words, trim, trim_class, trim_end_class, trimmed, trimmed_both, trimmed_end, views, words,
    CharClass,
};
use vstd::prelude::*;

verus! {

// ---------------------------------------------------------------------------
// Filters on loaded memories
// ---------------------------------------------------------------------------
/// Whether a memory with these tags passes a tag filter. Without a filter every
/// memory passes; a filter without tags passes none.
pub open spec fn tags_pass(
    own: Seq<Seq<char>>,
    wanted: Option<Seq<Seq<char>>>,
    any: bool,
) -> bool {
    match wanted {
        None => true,
        Some(tags) => if tags.len() == 0 {
            false
        } else if any {
            exists|i: int| 0 <= i < tags.len() && own.contains(#[trigger] tags[i])
        } else {
            forall|i: int| 0 <= i < tags.len() ==> own.contains(#[trigger] tags[i])
        },
    }
}

pub open spec fn opt_list(tags: Option<Vec<String>>) -> Option<Seq<Seq<char>>> {
    match tags {
        Some(t) => Some(views(t@)),
        None => None,
    }
}

/// Whether a memory passes a tag filter: with any (`tags_or`) or all of the
/// tags.
pub fn memory_matches_tags(node: &MemoryNode, tags: &Option<Vec<String>>, tags_or: bool) -> (res:
    bool)
    ensures
        res == tags_pass(node@.tags, opt_list(*tags), tags_or),
{
    let ghost own = node@.tags;
    match tags {
        None => true,
        Some(wanted) => {
            let ghost all = views(wanted@);
            if wanted.len() == 0 {
                return false;
            }
            for i in 0..wanted.len()
                invariant
                    all == views(wanted@),
                    opt_list(*tags) == Some(all),
                    own == views(node.tags@),
                    own == node@.tags,
                    wanted.len() > 0,
                    tags_or ==> forall|j: int| 0 <= j < i ==> !own.contains(#[trigger] all[j]),
                    !tags_or ==> forall|j: int| 0 <= j < i ==> own.contains(#[trigger] all[j]),
            {
                let found = has_text(&node.tags, wanted[i].as_str());
                assert(all[i as int] == wanted@[i as int]@);
                if tags_or && found {
                    return true;
                }
                if !tags_or && !found {
                    return false;
                }
            }
            !tags_or
        },
    }
}

/// Whether a time is in a range, both ends included.
pub open spec fn in_range(created_at: Timestamp, range: Option<(Timestamp, Timestamp)>) -> bool {
    match range {
        Some((start, end)) => start <= created_at <= end,
        None => true,
    }
}

/// Whether a memory was created in a time range, both ends included.
pub fn memory_matches_time_range(node: &MemoryNode, time_range: Option<(Timestamp, Timestamp)>) -> (res:
    bool)
    ensures
        res == in_range(node.created_at, time_range),
{
    match time_range {
        Some((start, end)) => node.created_at >= start && node.created_at <= end,
        None => true,
    }
}

/// What carries all of some tags carries any of them.
pub proof fn law_all_tags_implies_any(own: Seq<Seq<char>>, wanted: Option<Seq<Seq<char>>>)
    requires
        tags_pass(own, wanted, false),
    ensures
        tags_pass(own, wanted, true),
{
    if let Some(tags) = wanted {
        assert(own.contains(tags[0]));
    }
}

// ---------------------------------------------------------------------------
// Aliases of a question
// ---------------------------------------------------------------------------
/// A word of a question without what surrounds it, in lower case.
pub open spec fn question_word(raw: Seq<char>) -> Seq<char> {
    lower_form(trimmed_end(trimmed_both(raw, CharClass::Asking), CharClass::Stop))
}

/// Whether a word is long enough and has a letter.
pub open spec fn word_counts(word: Seq<char>, min: usize) -> bool {
    byte_count(word) >= min && has_letter(word)
}

/// The words of a question that count.
pub open spec fn question_words(raw: Seq<Seq<char>>, min: usize) -> Seq<Seq<char>>
    decreases raw.len(),
{
    if raw.len() == 0 {
        Seq::empty()
    } else {
        let rest = question_words(raw.drop_last(), min);
        let word = question_word(raw.last());
        if word_counts(word, min) {
            rest.push(word)
        } else {
            rest
        }
    }
}

/// A list of aliases with one more, where it is new and not too long.
pub open spec fn with_question_alias(
    list: Seq<Seq<char>>,
    alias: Seq<char>,
    max: usize,
) -> Seq<Seq<char>> {
    if byte_count(alias) <= max && !list.contains(alias) {
        list.push(alias)
    } else {
        list
    }
}

/// The phrase of `n` words from position `start`.
pub open spec fn phrase(tokens: Seq<Seq<char>>, start: int, n: int) -> Seq<char> {
    joined(tokens.subrange(start, start + n), " "@)
}

/// A list of aliases with the phrases of 1 to `n` words from one position.
pub open spec fn phrases_from(
    list: Seq<Seq<char>>,
    tokens: Seq<Seq<char>>,
    start: int,
    n: nat,
    max: usize,
) -> Seq<Seq<char>>
    decreases n,
{
    if n == 0 {
        list
    } else {
        with_question_alias(
            phrases_from(list, tokens, start, (n - 1) as nat, max),
            phrase(tokens, start, n as int),
            max,
        )
    }
}

/// How many words a phrase from one position can have.
pub open spec fn phrase_words(len: int, start: int, max_words: usize) -> nat {
    if max_words < len - start {
        max_words as nat
    } else {
        (len - start) as nat
    }
}

/// The phrases from the first `k` positions.
pub open spec fn phrases_up_to(
    tokens: Seq<Seq<char>>,
    k: nat,
    max_words: usize,
    max: usize,
) -> Seq<Seq<char>>
    decreases k,
{
    if k == 0 {
        Seq::empty()
    } else {
        phrases_from(
            phrases_up_to(tokens, (k - 1) as nat, max_words, max),
            tokens,
            k - 1,
            phrase_words(tokens.len() as int, k - 1, max_words),
            max,
        )
    }
}

/// The aliases that a question may mean: its runs of words, each once.
pub open spec fn question_aliases(query: Seq<char>, config: EntityExtractionConfig) -> Seq<
    Seq<char>,
> {
    let tokens = question_words(words(query), config.min_phrase_chars);
    phrases_up_to(tokens, tokens.len(), config.max_alias_words, config.max_phrase_chars)
}

fn letter_in(s: &str) -> (res: bool)
    ensures
        res == has_letter(s@),
{
    let chars = chars_of(s);
    for i in 0..chars.len()
        invariant
            chars@ == s@,
            forall|j: int| 0 <= j < i ==> !crate::text::is_ascii_letter(#[trigger] s@[j]),
    {
        let c = chars[i];
        if (c >= 'A' && c <= 'Z') || (c >= 'a' && c <= 'z') {
            assert(crate::text::is_ascii_letter(s@[i as int]));
            return true;
        }
    }
    false
}

/// The aliases that a question may mean.
pub fn query_aliases(query: &str, config: &EntityExtractionConfig) -> (res: Vec<String>)
    ensures
        views(res@) == question_aliases(query@, *config),
{
    let raw = split_words(query);
    let ghost raws = views(raw@);
    let min: usize = config.min_phrase_chars;
    let max: usize = config.max_phrase_chars;
    let mut tokens: Vec<String> = Vec::new();
    proof {
        assert(views(tokens@) =~= question_words(raws.take(0), min));
    }
    for i in 0..raw.len()
        invariant
            raws == views(raw@),
            views(tokens@) == question_words(raws.take(i as int), min),
    {
        proof {
            assert(raws.take(i + 1).drop_last() =~= raws.take(i as int));
            assert(raws[i as int] == raw@[i as int]@);
        }
        let word = trim_end_class(
            trim_class(raw[i].as_str(), CharClass::Asking),
            CharClass::Stop,
        ).to_lowercase();
        if byte_len(word.as_str()) >= min && letter_in(word.as_str()) {
            proof {
                lemma_views_push(tokens@, word);
            }
            tokens.push(word);
        }
    }
    proof {
        assert(raws.take(raws.len() as int) =~= raws);
    }
    let ghost toks = views(tokens@);
    let mut aliases: Vec<String> = Vec::new();
    proof {
        assert(views(aliases@) =~= Seq::empty());
    }
    for start in 0..tokens.len()
        invariant
            toks == views(tokens@),
            views(aliases@) == phrases_up_to(toks, start as nat, config.max_alias_words, max),
    {
        let left: usize = tokens.len() - start;
        let count: usize = if config.max_alias_words < left {
            config.max_alias_words
        } else {
            left
        };
        let ghost base = views(aliases@);
        let mut alias = String::new();
        for n in 0..count
            invariant
                toks == views(tokens@),
                start + count <= tokens.len(),
                n > 0 ==> alias@ == phrase(toks, start as int, n as int),
                n == 0 ==> alias@.len() == 0,
                views(aliases@) == phrases_from(base, toks, start as int, n as nat, max),
        {
            if n > 0 {
                alias.append(" ");
            }
            alias.append(tokens[start + n].as_str());
            proof {
                let now = toks.subrange(start as int, start + n + 1);
                assert(now.drop_last() =~= toks.subrange(start as int, start + n));
                assert(now.last() == tokens@[start + n]@);
                assert(alias@ =~= phrase(toks, start as int, n + 1));
            }
            if byte_len(alias.as_str()) <= max && !has_text(&aliases, alias.as_str()) {
                let item = copy_text(alias.as_str());
                proof {
                    lemma_views_push(aliases@, item);
                }
                aliases.push(item);
            }
        }
    }
    aliases
}

proof fn lemma_phrases_from_tidy(
    list: Seq<Seq<char>>,
    tokens: Seq<Seq<char>>,
    start: int,
    n: nat,
    max: usize,
)
    requires
        list.no_duplicates(),
        forall|i: int| 0 <= i < list.len() ==> byte_count(#[trigger] list[i]) <= max,
    ensures
        phrases_from(list, tokens, start, n, max).no_duplicates(),
        forall|i: int|
            0 <= i < phrases_from(list, tokens, start, n, max).len() ==> byte_count(
                #[trigger] phrases_from(list, tokens, start, n, max)[i],
            ) <= max,
    decreases n,
{
    if n > 0 {
        lemma_phrases_from_tidy(list, tokens, start, (n - 1) as nat, max);
        let rest = phrases_from(list, tokens, start, (n - 1) as nat, max);
        let alias = phrase(tokens, start, n as int);
        let out = phrases_from(list, tokens, start, n, max);
        if byte_count(alias) <= max && !rest.contains(alias) {
            assert forall|i: int, j: int|
                0 <= i < out.len() && 0 <= j < out.len() && i != j implies out[i] != out[j] by {
                if i < rest.len() {
                    assert(rest.contains(rest[i]));
                }
                if j < rest.len() {
                    assert(rest.contains(rest[j]));
                }
            }
        }
    }
}

proof fn lemma_phrases_up_to_tidy(
    tokens: Seq<Seq<char>>,
    k: nat,
    max_words: usize,
    max: usize,
)
    ensures
        phrases_up_to(tokens, k, max_words, max).no_duplicates(),
        forall|i: int|
            0 <= i < phrases_up_to(tokens, k, max_words, max).len() ==> byte_count(
                #[trigger] phrases_up_to(tokens, k, max_words, max)[i],
            ) <= max,
    decreases k,
{
    if k > 0 {
        lemma_phrases_up_to_tidy(tokens, (k - 1) as nat, max_words, max);
        lemma_phrases_from_tidy(
            phrases_up_to(tokens, (k - 1) as nat, max_words, max),
            tokens,
            k - 1,
            phrase_words(tokens.len() as int, k - 1, max_words),
            max,
        );
    }
}

/// The aliases of a question are distinct, and none is longer than the limit.
pub proof fn law_question_aliases(query: Seq<char>, config: EntityExtractionConfig)
    ensures
        question_aliases(query, config).no_duplicates(),
        forall|i: int|
            0 <= i < question_aliases(query, config).len() ==> byte_count(
                #[trigger] question_aliases(query, config)[i],
            ) <= config.max_phrase_chars,
{
    let tokens = question_words(words(query), config.min_phrase_chars);
    lemma_phrases_up_to_tidy(
        tokens,
        tokens.len(),
        config.max_alias_words,
        config.max_phrase_chars,
    );
}

/// Whether entities take part in a recall.
pub open spec fn entities_take_part(
    query: Option<Seq<char>>,
    config: EntityExtractionConfig,
) -> bool {
    config.enabled && config.recall_enabled && query is Some && trimmed(query->0).len() > 0
}

/// The aliases that a recall looks up: none without a question, and none where
/// entities take no part.
pub fn recall_aliases(query: &Option<String>, config: &EntityExtractionConfig) -> (res: Vec<String>)
    ensures
        views(res@) == if entities_take_part(crate::text::opt_view(*query), *config) {
            question_aliases(query->0@, *config)
        } else {
            Seq::empty()
        },
{
    match query {
        Some(q) => {
            if !config.enabled || !config.recall_enabled || trim(q.as_str()).is_empty() {
                let none: Vec<String> = Vec::new();
                assert(views(none@) =~= Seq::empty());
                return none;
            }
            query_aliases(q.as_str(), config)
        },
        None => {
            let none: Vec<String> = Vec::new();
            assert(views(none@) =~= Seq::empty());
            none
        },
    }
}

// ---------------------------------------------------------------------------
// Boosts
// ---------------------------------------------------------------------------
/// The position of an identity among scored memories.
pub open spec fn hit_index(hits: Seq<ScoredHit>, id: MemoryId) -> Option<int>
    decreases hits.len(),
{
    if hits.len() == 0 {
        None
    } else {
        match hit_index(hits.drop_last(), id) {
            Some(i) => Some(i),
            None => if hits.last().id == id {
                Some(hits.len() - 1)
            } else {
                None
            },
        }
    }
}

proof fn lemma_hit_index(hits: Seq<ScoredHit>, id: MemoryId)
    ensures
        match hit_index(hits, id) {
            Some(i) => 0 <= i < hits.len() && hits[i].id == id,
            None => forall|j: int| 0 <= j < hits.len() ==> (#[trigger] hits[j]).id != id,
        },
    decreases hits.len(),
{
    if hits.len() > 0 {
        lemma_hit_index(hits.drop_last(), id);
        if hit_index(hits, id) is None {
            assert forall|j: int| 0 <= j < hits.len() implies (#[trigger] hits[j]).id != id by {
                if j < hits.len() - 1 {
                    assert(hits.drop_last()[j] == hits[j]);
                }
            }
        }
    }
}

proof fn lemma_hit_index_prefix(hits: Seq<ScoredHit>, id: MemoryId, n: int)
    requires
        0 <= n <= hits.len(),
        hit_index(hits.take(n), id) is Some,
    ensures
        hit_index(hits, id) == hit_index(hits.take(n), id),
    decreases hits.len() - n,
{
    if n < hits.len() {
        assert(hits.take(n + 1).drop_last() =~= hits.take(n));
        lemma_hit_index_prefix(hits, id, n + 1);
    } else {
        assert(hits.take(n) =~= hits);
    }
}

fn find_hit(hits: &Vec<ScoredHit>, id: MemoryId) -> (res: Option<usize>)
    ensures
        match res {
            Some(i) => i < hits@.len() && hit_index(hits@, id) == Some(i as int),
            None => hit_index(hits@, id) is None,
        },
{
    for i in 0..hits.len()
        invariant
            hit_index(hits@.take(i as int), id) is None,
    {
        proof {
            assert(hits@.take(i + 1).drop_last() =~= hits@.take(i as int));
        }
        if hits[i].id == id {
            proof {
                lemma_hit_index_prefix(hits@, id, i + 1);
            }
            return Some(i);
        }
    }
    proof {
        assert(hits@.take(hits.len() as int) =~= hits@);
    }
    None
}

/// The strongest boost of each memory.
pub open spec fn strongest(boosts: Seq<ScoredHit>) -> Seq<ScoredHit>
    decreases boosts.len(),
{
    if boosts.len() == 0 {
        Seq::empty()
    } else {
        let rest = strongest(boosts.drop_last());
        let b = boosts.last();
        match hit_index(rest, b.id) {
            Some(i) => rest.update(
                i,
                ScoredHit { id: b.id, score: rest[i].score.larger(b.score) },
            ),
            None => rest.push(b),
        }
    }
}

/// Keeps the strongest boost of each memory.
pub fn strongest_boosts(boosts: &Vec<ScoredHit>) -> (res: Vec<ScoredHit>)
    ensures
        res@ == strongest(boosts@),
{
    let mut out: Vec<ScoredHit> = Vec::new();
    for i in 0..boosts.len()
        invariant
            out@ == strongest(boosts@.take(i as int)),
    {
        let b = boosts[i];
        proof {
            assert(boosts@.take(i + 1).drop_last() =~= boosts@.take(i as int));
            lemma_hit_index(out@, b.id);
        }
        match find_hit(&out, b.id) {
            Some(j) => {
                let score = out[j].score.max(b.score);
                out.set(j, ScoredHit { id: b.id, score });
            },
            None => {
                out.push(b);
            },
        }
    }
    proof {
        assert(boosts@.take(boosts.len() as int) =~= boosts@);
    }
    out
}

proof fn lemma_strongest_distinct(boosts: Seq<ScoredHit>)
    ensures
        forall|i: int, j: int|
            0 <= i < j < strongest(boosts).len() ==> (#[trigger] strongest(boosts)[i]).id != (
            #[trigger] strongest(boosts)[j]).id,
    decreases boosts.len(),
{
    if boosts.len() > 0 {
        lemma_strongest_distinct(boosts.drop_last());
        let rest = strongest(boosts.drop_last());
        let b = boosts.last();
        let out = strongest(boosts);
        lemma_hit_index(rest, b.id);
        assert forall|i: int, j: int| 0 <= i < j < out.len() implies (#[trigger] out[i]).id != (
        #[trigger] out[j]).id by {
            if j < rest.len() {
                assert(rest[i].id != rest[j].id);
            } else {
                assert(rest[i].id != b.id);
            }
        }
    }
}

/// Each memory is boosted at most once.
pub proof fn law_one_boost_each(boosts: Seq<ScoredHit>)
    ensures
        forall|i: int, j: int|
            0 <= i < j < strongest(boosts).len() ==> (#[trigger] strongest(boosts)[i]).id != (
            #[trigger] strongest(boosts)[j]).id,
{
    lemma_strongest_distinct(boosts);
}

/// The confidence that counts for a boost: not less than 0.
pub fn boost_confidence(confidence: Single) -> (res: Single)
    ensures
        res == confidence.larger(Single { bits: 0 }),
{
    confidence.max(Single { bits: 0 })
}

/// The links of an entity that a recall considers: the first `limit`.
pub fn considered_links(count: usize, limit: usize) -> (res: usize)
    ensures
        res == if count < limit {
            count
        } else {
            limit
        },
{
    if count < limit {
        count
    } else {
        limit
    }
}

/// Whether the memory at the other end of a link is there and passes the
/// filters of a recall.
pub open spec fn link_counts(
    memory: Option<MemoryNode>,
    tags: Option<Seq<Seq<char>>>,
    any: bool,
    range: Option<(Timestamp, Timestamp)>,
) -> bool {
    match memory {
        Some(node) => tags_pass(node@.tags, tags, any) && in_range(node.created_at, range),
        None => false,
    }
}

/// The memories that the considered links of an entity boost, each with the
/// confidence that counts.
pub open spec fn link_confidences(
    links: Seq<MemoryEntityLink>,
    memories: Seq<Option<MemoryNode>>,
    tags: Option<Seq<Seq<char>>>,
    any: bool,
    range: Option<(Timestamp, Timestamp)>,
) -> Seq<ScoredHit>
    decreases memories.len(),
{
    if memories.len() == 0 {
        Seq::empty()
    } else {
        let rest = link_confidences(links, memories.drop_last(), tags, any, range);
        let link = links[memories.len() - 1];
        if link_counts(memories.last(), tags, any, range) {
            rest.push(
                ScoredHit {
                    id: link.memory_id,
                    score: link.confidence.larger(Single { bits: 0 }),
                },
            )
        } else {
            rest
        }
    }
}

/// The memories that an entity boosts: those at the other end of its considered
/// links that are there and pass the filters. `memories` holds what was read for
/// each considered link.
pub fn boosted_memories(
    links: &Vec<MemoryEntityLink>,
    memories: &Vec<Option<MemoryNode>>,
    tags: &Option<Vec<String>>,
    tags_or: bool,
    time_range: Option<(Timestamp, Timestamp)>,
) -> (res: Vec<ScoredHit>)
    requires
        memories@.len() <= links@.len(),
    ensures
        res@ == link_confidences(links@, memories@, opt_list(*tags), tags_or, time_range),
{
    let mut out: Vec<ScoredHit> = Vec::new();
    for i in 0..memories.len()
        invariant
            memories@.len() <= links@.len(),
            out@ == link_confidences(
                links@,
                memories@.take(i as int),
                opt_list(*tags),
                tags_or,
                time_range,
            ),
    {
        proof {
            assert(memories@.take(i + 1).drop_last() =~= memories@.take(i as int));
        }
        if let Some(node) = &memories[i] {
            if memory_matches_tags(node, tags, tags_or) && memory_matches_time_range(
                node,
                time_range,
            ) {
                out.push(
                    ScoredHit {
                        id: links[i].memory_id,
                        score: boost_confidence(links[i].confidence),
                    },
                );
            }
        }
    }
    proof {
        assert(memories@.take(memories.len() as int) =~= memories@);
    }
    out
}

/// Whether one of the considered links leads to a memory that counts.
pub open spec fn linked_and_counts(
    links: Seq<MemoryEntityLink>,
    memories: Seq<Option<MemoryNode>>,
    tags: Option<Seq<Seq<char>>>,
    any: bool,
    range: Option<(Timestamp, Timestamp)>,
    id: MemoryId,
) -> bool {
    exists|j: int|
        0 <= j < memories.len() && (#[trigger] links[j]).memory_id == id && link_counts(
            memories[j],
            tags,
            any,
            range,
        )
}

proof fn lemma_link_confidences_members(
    links: Seq<MemoryEntityLink>,
    memories: Seq<Option<MemoryNode>>,
    tags: Option<Seq<Seq<char>>>,
    any: bool,
    range: Option<(Timestamp, Timestamp)>,
    i: int,
)
    requires
        memories.len() <= links.len(),
        0 <= i < link_confidences(links, memories, tags, any, range).len(),
    ensures
        linked_and_counts(
            links,
            memories,
            tags,
            any,
            range,
            link_confidences(links, memories, tags, any, range)[i].id,
        ),
    decreases memories.len(),
{
    let fewer = memories.drop_last();
    let rest = link_confidences(links, fewer, tags, any, range);
    let all = link_confidences(links, memories, tags, any, range);
    if i < rest.len() {
        lemma_link_confidences_members(links, fewer, tags, any, range, i);
        let j = choose|j: int|
            0 <= j < fewer.len() && (#[trigger] links[j]).memory_id == rest[i].id && link_counts(
                fewer[j],
                tags,
                any,
                range,
            );
        assert(links[j].memory_id == all[i].id);
    } else {
        assert(links[memories.len() - 1].memory_id == all[i].id);
    }
}

/// An entity boosts only memories that it is linked to, that are stored and that
/// pass the filters of the recall.
pub proof fn law_boosts_pass_filters(
    links: Seq<MemoryEntityLink>,
    memories: Seq<Option<MemoryNode>>,
    tags: Option<Seq<Seq<char>>>,
    any: bool,
    range: Option<(Timestamp, Timestamp)>,
)
    requires
        memories.len() <= links.len(),
    ensures
        ({
            let boosted = link_confidences(links, memories, tags, any, range);
            forall|i: int|
                0 <= i < boosted.len() ==> linked_and_counts(
                    links,
                    memories,
                    tags,
                    any,
                    range,
                    (#[trigger] boosted[i]).id,
                )
        }),
{
    let boosted = link_confidences(links, memories, tags, any, range);
    assert forall|i: int| 0 <= i < boosted.len() implies linked_and_counts(
        links,
        memories,
        tags,
        any,
        range,
        (#[trigger] boosted[i]).id,
    ) by {
        lemma_link_confidences_members(links, memories, tags, any, range, i);
    }
}

// ---------------------------------------------------------------------------
// Merging and filtering
// ---------------------------------------------------------------------------
/// A memory with what a search and a boost give it. The score is the sum of
/// what is there.
#[derive(Clone, Copy, Debug, PartialEq, Eq, Structural)]
pub struct RecallHit {
    pub id: MemoryId,
    pub found: Option<Single>,
    pub boost: Option<Single>,
}

/// The boost of a memory, if any.
pub open spec fn boost_of(boosts: Seq<ScoredHit>, id: MemoryId) -> Option<Single> {
    match hit_index(boosts, id) {
        Some(i) => Some(boosts[i].score),
        None => None,
    }
}

/// The boosts of memories that a search did not find.
pub open spec fn only_boosted(results: Seq<ScoredHit>, boosts: Seq<ScoredHit>) -> Seq<RecallHit>
    decreases boosts.len(),
{
    if boosts.len() == 0 {
        Seq::empty()
    } else {
        let rest = only_boosted(results, boosts.drop_last());
        let b = boosts.last();
        if hit_index(results, b.id) is None {
            rest.push(RecallHit { id: b.id, found: None, boost: Some(b.score) })
        } else {
            rest
        }
    }
}

/// The results of a search with their boosts, and what only a boost brings in.
pub open spec fn merged_recall(results: Seq<ScoredHit>, boosts: Seq<ScoredHit>) -> Seq<RecallHit> {
    results.map_values(
        |h: ScoredHit|
            RecallHit { id: h.id, found: Some(h.score), boost: boost_of(boosts, h.id) },
    ) + only_boosted(results, boosts)
}

/// Adds the boosts to the results of a search.
pub fn merge_recall(results: &Vec<ScoredHit>, boosts: &Vec<ScoredHit>) -> (res: Vec<RecallHit>)
    ensures
        res@ == merged_recall(results@, boosts@),
{
    let ghost with_boost = |h: ScoredHit|
        RecallHit { id: h.id, found: Some(h.score), boost: boost_of(boosts@, h.id) };
    let mut out: Vec<RecallHit> = Vec::new();
    for i in 0..results.len()
        invariant
            with_boost == (|h: ScoredHit|
                RecallHit { id: h.id, found: Some(h.score), boost: boost_of(boosts@, h.id) }),
            out@ == results@.take(i as int).map_values(with_boost),
    {
        let h = results[i];
        let boost: Option<Single> = match find_hit(boosts, h.id) {
            Some(j) => Some(boosts[j].score),
            None => None,
        };
        out.push(RecallHit { id: h.id, found: Some(h.score), boost });
        assert(out@ =~= results@.take(i + 1).map_values(with_boost));
    }
    let ghost head = results@.map_values(with_boost);
    proof {
        assert(results@.take(results.len() as int) =~= results@);
        assert(head + only_boosted(results@, boosts@.take(0)) =~= head);
    }
    for i in 0..boosts.len()
        invariant
            out@ == head + only_boosted(results@, boosts@.take(i as int)),
    {
        let b = boosts[i];
        proof {
            assert(boosts@.take(i + 1).drop_last() =~= boosts@.take(i as int));
        }
        if find_hit(results, b.id).is_none() {
            out.push(RecallHit { id: b.id, found: None, boost: Some(b.score) });
        }
        assert(out@ =~= head + only_boosted(results@, boosts@.take(i + 1)));
    }
    proof {
        assert(boosts@.take(boosts.len() as int) =~= boosts@);
    }
    out
}

/// An edge that ends in a memory, as it stands at the time of the recall.
#[derive(Clone, Copy, Debug, PartialEq, Eq, Structural)]
pub struct IncomingEdge {
    pub edge_type: EdgeType,
    /// Whether the edge is valid at the time of the recall.
    pub valid: bool,
}

/// What a recall knows of a memory that it may give.
#[derive(Debug)]
pub struct RecallFacts {
    pub incoming: Vec<IncomingEdge>,
    /// Whether the memory is valid at the time of the recall; unknown where it
    /// could not be read.
    pub valid: Option<bool>,
}

/// Whether a valid edge says that something supersedes or contradicts the
/// memory.
pub open spec fn superseded(incoming: Seq<IncomingEdge>) -> bool {
    exists|i: int|
        0 <= i < incoming.len() && (#[trigger] incoming[i]).valid && (incoming[i].edge_type
            == EdgeType::Supersedes || incoming[i].edge_type == EdgeType::Contradicts)
}

/// Whether a recall may give a memory.
pub open spec fn recallable(facts: RecallFacts) -> bool {
    !superseded(facts.incoming@) && facts.valid != Some(false)
}

/// Whether a recall may give a memory: nothing valid supersedes or contradicts
/// it, and it is not known to be invalid.
pub fn is_recallable(facts: &RecallFacts) -> (res: bool)
    ensures
        res == recallable(*facts),
{
    for i in 0..facts.incoming.len()
        invariant
            forall|j: int|
                0 <= j < i ==> !((#[trigger] facts.incoming@[j]).valid && (
                facts.incoming@[j].edge_type == EdgeType::Supersedes
                    || facts.incoming@[j].edge_type == EdgeType::Contradicts)),
    {
        let e = facts.incoming[i];
        if e.valid && (e.edge_type == EdgeType::Supersedes || e.edge_type
            == EdgeType::Contradicts) {
            assert(facts.incoming@[i as int].valid);
            return false;
        }
    }
    match facts.valid {
        Some(valid) => valid,
        None => true,
    }
}

/// Scored memories, the highest score first.
pub open spec fn by_score(scored: Seq<ScoredHit>) -> Seq<ScoredHit> {
    stable_sorted(scored, |a: ScoredHit, b: ScoredHit| ScoredHit::ranks_before(a, b))
}

/// Ranks everything that a recall considers.
pub fn rank_recall(scored: Vec<ScoredHit>) -> (res: Vec<ScoredHit>)
    ensures
        res@ == by_score(scored@),
{
    proof {
        assert(views_of(scored@) =~= scored@);
    }
    let sorted = sort_ranked(scored);
    proof {
        assert(views_of(sorted@) =~= sorted@);
    }
    sorted
}

/// What a recall considers, with its scores.
pub open spec fn recall_scores(hits: Seq<RecallHit>, scores: Seq<Single>) -> Seq<ScoredHit> {
    Seq::new(hits.len(), |i: int| ScoredHit { id: hits[i].id, score: scores[i] })
}

/// Ranks everything that a recall considers, given the score of each.
pub fn rank_merged(hits: &Vec<RecallHit>, scores: &Vec<Single>) -> (res: Vec<ScoredHit>)
    requires
        hits@.len() == scores@.len(),
    ensures
        res@ == by_score(recall_scores(hits@, scores@)),
{
    let mut scored: Vec<ScoredHit> = Vec::new();
    for i in 0..hits.len()
        invariant
            hits@.len() == scores@.len(),
            scored@ == recall_scores(hits@, scores@).take(i as int),
    {
        scored.push(ScoredHit { id: hits[i].id, score: scores[i] });
        assert(scored@ =~= recall_scores(hits@, scores@).take(i + 1));
    }
    proof {
        assert(scored@ =~= recall_scores(hits@, scores@));
    }
    rank_recall(scored)
}

/// The memories that a recall may give, in their order.
pub open spec fn kept(ranked: Seq<ScoredHit>, facts: Seq<RecallFacts>) -> Seq<ScoredHit>
    recommends
        ranked.len() == facts.len(),
    decreases ranked.len(),
{
    if ranked.len() == 0 {
        Seq::empty()
    } else {
        let rest = kept(ranked.drop_last(), facts.drop_last());
        if recallable(facts.last()) {
            rest.push(ranked.last())
        } else {
            rest
        }
    }
}

/// The first `k` of the memories that a recall may give.
pub open spec fn recalled(
    ranked: Seq<ScoredHit>,
    facts: Seq<RecallFacts>,
    k: usize,
) -> Seq<ScoredHit> {
    let all = kept(ranked, facts);
    all.take(if k < all.len() {
        k as int
    } else {
        all.len() as int
    })
}

/// The result of a recall: of the ranked memories, the first `k` that may be
/// given. `facts` says of each ranked memory what is known of it.
pub fn finish_recall(ranked: &Vec<ScoredHit>, facts: &Vec<RecallFacts>, k: usize) -> (res: Vec<
    ScoredHit,
>)
    requires
        ranked@.len() == facts@.len(),
    ensures
        res@ == recalled(ranked@, facts@, k),
{
    let mut out: Vec<ScoredHit> = Vec::new();
    for i in 0..ranked.len()
        invariant
            ranked@.len() == facts@.len(),
            out@ == kept(ranked@.take(i as int), facts@.take(i as int)),
    {
        proof {
            assert(ranked@.take(i + 1).drop_last() =~= ranked@.take(i as int));
            assert(facts@.take(i + 1).drop_last() =~= facts@.take(i as int));
        }
        if is_recallable(&facts[i]) {
            out.push(ranked[i]);
        }
    }
    proof {
        assert(ranked@.take(ranked.len() as int) =~= ranked@);
        assert(facts@.take(facts.len() as int) =~= facts@);
        let all = kept(ranked@, facts@);
        assert(all.take(all.len() as int) =~= all);
    }
    out.truncate(k);
    out
}

/// Whether a hit is one of the ranked memories that a recall may give.
pub open spec fn given(ranked: Seq<ScoredHit>, facts: Seq<RecallFacts>, hit: ScoredHit) -> bool {
    exists|j: int| 0 <= j < ranked.len() && #[trigger] ranked[j] == hit && recallable(facts[j])
}

proof fn lemma_kept_members(ranked: Seq<ScoredHit>, facts: Seq<RecallFacts>, i: int)
    requires
        ranked.len() == facts.len(),
        0 <= i < kept(ranked, facts).len(),
    ensures
        given(ranked, facts, kept(ranked, facts)[i]),
    decreases ranked.len(),
{
    let rest = kept(ranked.drop_last(), facts.drop_last());
    if i < rest.len() {
        lemma_kept_members(ranked.drop_last(), facts.drop_last(), i);
        let j = choose|j: int|
            0 <= j < ranked.drop_last().len() && #[trigger] ranked.drop_last()[j] == rest[i]
                && recallable(facts.drop_last()[j]);
        assert(ranked[j] == rest[i] && recallable(facts[j]));
    } else {
        assert(ranked[ranked.len() - 1] == kept(ranked, facts)[i]);
    }
}

/// A recall gives at most `k` memories, and none that something valid
/// supersedes or contradicts or that is known to be invalid.
pub proof fn law_recall_excludes(ranked: Seq<ScoredHit>, facts: Seq<RecallFacts>, k: usize)
    requires
        ranked.len() == facts.len(),
    ensures
        recalled(ranked, facts, k).len() <= k,
        forall|i: int|
            0 <= i < recalled(ranked, facts, k).len() ==> given(
                ranked,
                facts,
                #[trigger] recalled(ranked, facts, k)[i],
            ),
{
    let res = recalled(ranked, facts, k);
    assert forall|i: int| 0 <= i < res.len() implies given(
        ranked,
        facts,
        #[trigger] res[i],
    ) by {
        assert(res[i] == kept(ranked, facts)[i]);
        lemma_kept_members(ranked, facts, i);
    }
}

proof fn lemma_only_boosted_members(
    results: Seq<ScoredHit>,
    boosts: Seq<ScoredHit>,
    i: int,
)
    requires
        0 <= i < only_boosted(results, boosts).len(),
    ensures
        exists|j: int|
            0 <= j < boosts.len() && (#[trigger] boosts[j]).id == only_boosted(
                results,
                boosts,
            )[i].id,
    decreases boosts.len(),
{
    let rest = only_boosted(results, boosts.drop_last());
    if i < rest.len() {
        lemma_only_boosted_members(results, boosts.drop_last(), i);
        let j = choose|j: int|
            0 <= j < boosts.drop_last().len() && (#[trigger] boosts.drop_last()[j]).id
                == rest[i].id;
        assert(boosts[j].id == rest[i].id);
    } else {
        assert(boosts[boosts.len() - 1].id == only_boosted(results, boosts)[i].id);
    }
}

/// Every memory that a recall gives was found by the search or is boosted by an
/// entity of the question.
pub proof fn law_recall_sources(
    results: Seq<ScoredHit>,
    boosts: Seq<ScoredHit>,
    scores: Seq<Single>,
    facts: Seq<RecallFacts>,
    k: usize,
)
    requires
        scores.len() == merged_recall(results, boosts).len(),
        facts.len() == scores.len(),
    ensures
        ({
            let ranked = by_score(recall_scores(merged_recall(results, boosts), scores));
            forall|i: int|
                0 <= i < recalled(ranked, facts, k).len() ==> found_in(
                    results,
                    (#[trigger] recalled(ranked, facts, k)[i]).id,
                ) || found_in(boosts, recalled(ranked, facts, k)[i].id)
        }),
{
    let hits = merged_recall(results, boosts);
    let scored = recall_scores(hits, scores);
    let ranked = by_score(scored);
    let res = recalled(ranked, facts, k);
    let rank = |a: ScoredHit, b: ScoredHit| ScoredHit::ranks_before(a, b);
    law_sort_keeps_items(scored, rank);
    assert(ranked =~= stable_sorted(scored, rank));
    law_recall_excludes(ranked, facts, k);
    assert forall|i: int| 0 <= i < res.len() implies found_in(results, (#[trigger] res[i]).id)
        || found_in(boosts, res[i].id) by {
        assert(given(ranked, facts, res[i]));
        let j = choose|j: int|
            0 <= j < ranked.len() && #[trigger] ranked[j] == res[i] && recallable(facts[j]);
        assert(ranked.contains(ranked[j]));
        assert(scored.contains(res[i]));
        let h = choose|h: int| 0 <= h < scored.len() && scored[h] == res[i];
        if h < results.len() {
            assert(results[h].id == res[i].id);
        } else {
            lemma_only_boosted_members(results, boosts, h - results.len());
        }
    }
}

proof fn lemma_only_boosted_once(results: Seq<ScoredHit>, boosts: Seq<ScoredHit>)
    requires
        each_once(boosts),
    ensures
        forall|i: int, j: int|
            0 <= i < j < only_boosted(results, boosts).len() ==> (#[trigger] only_boosted(
                results,
                boosts,
            )[i]).id != (#[trigger] only_boosted(results, boosts)[j]).id,
        forall|i: int|
            0 <= i < only_boosted(results, boosts).len() ==> !found_in(
                results,
                (#[trigger] only_boosted(results, boosts)[i]).id,
            ),
    decreases boosts.len(),
{
    if boosts.len() > 0 {
        let fewer = boosts.drop_last();
        assert(each_once(fewer)) by {
            assert forall|i: int, j: int| 0 <= i < j < fewer.len() implies (
            #[trigger] fewer[i]).id != (#[trigger] fewer[j]).id by {
                assert(boosts[i].id != boosts[j].id);
            }
        }
        lemma_only_boosted_once(results, fewer);
        let rest = only_boosted(results, fewer);
        let all = only_boosted(results, boosts);
        let b = boosts.last();
        lemma_hit_index(results, b.id);
        assert forall|i: int, j: int| 0 <= i < j < all.len() implies (#[trigger] all[i]).id != (
        #[trigger] all[j]).id by {
            if j == rest.len() {
                lemma_only_boosted_members(results, fewer, i);
                let m = choose|m: int|
                    0 <= m < fewer.len() && (#[trigger] fewer[m]).id == rest[i].id;
                assert(boosts[m].id != boosts[boosts.len() - 1].id);
            }
        }
    }
}

proof fn lemma_kept_once(ranked: Seq<ScoredHit>, facts: Seq<RecallFacts>)
    requires
        ranked.len() == facts.len(),
        each_once(ranked),
    ensures
        each_once(kept(ranked, facts)),
    decreases ranked.len(),
{
    if ranked.len() > 0 {
        let fewer = ranked.drop_last();
        assert(each_once(fewer)) by {
            assert forall|i: int, j: int| 0 <= i < j < fewer.len() implies (
            #[trigger] fewer[i]).id != (#[trigger] fewer[j]).id by {
                assert(ranked[i].id != ranked[j].id);
            }
        }
        lemma_kept_once(fewer, facts.drop_last());
        let rest = kept(fewer, facts.drop_last());
        let all = kept(ranked, facts);
        assert forall|i: int, j: int| 0 <= i < j < all.len() implies (#[trigger] all[i]).id != (
        #[trigger] all[j]).id by {
            if j == rest.len() {
                lemma_kept_members(fewer, facts.drop_last(), i);
                let m = choose|m: int|
                    0 <= m < fewer.len() && #[trigger] fewer[m] == rest[i] && recallable(
                        facts.drop_last()[m],
                    );
                assert(ranked[m].id != ranked[ranked.len() - 1].id);
            }
        }
    }
}

/// A recall gives no memory twice, where the search gave none twice and each
/// memory has one boost.
pub proof fn law_recall_distinct(
    results: Seq<ScoredHit>,
    boosts: Seq<ScoredHit>,
    scores: Seq<Single>,
    facts: Seq<RecallFacts>,
    k: usize,
)
    requires
        each_once(results),
        each_once(boosts),
        scores.len() == merged_recall(results, boosts).len(),
        facts.len() == scores.len(),
    ensures
        each_once(
            recalled(by_score(recall_scores(merged_recall(results, boosts), scores)), facts, k),
        ),
{
    let hits = merged_recall(results, boosts);
    let scored = recall_scores(hits, scores);
    let ranked = by_score(scored);
    let more = only_boosted(results, boosts);
    lemma_only_boosted_once(results, boosts);
    assert forall|i: int, j: int| 0 <= i < j < scored.len() implies (#[trigger] scored[i]).id != (
    #[trigger] scored[j]).id by {
        if j < results.len() {
            assert(results[i].id != results[j].id);
        } else {
            assert(hits[j] == more[j - results.len()]);
            if i < results.len() {
                assert(hits[i].id == results[i].id);
                assert(!found_in(results, more[j - results.len()].id));
            } else {
                assert(hits[i] == more[i - results.len()]);
            }
        }
    }
    lemma_sorted_once(scored);
    law_sort_keeps_items(
        scored,
        |a: ScoredHit, b: ScoredHit| ScoredHit::ranks_before(a, b),
    );
    lemma_kept_once(ranked, facts);
    let all = kept(ranked, facts);
    let res = recalled(ranked, facts, k);
    assert forall|i: int, j: int| 0 <= i < j < res.len() implies (#[trigger] res[i]).id != (
    #[trigger] res[j]).id by {
        assert(all[i].id != all[j].id);
    }
}

/// Whether scores never increase.
pub open spec fn descending(hits: Seq<ScoredHit>) -> bool {
    forall|i: int, j: int|
        0 <= i < j < hits.len() ==> (#[trigger] hits[i]).score.key() >= (
        #[trigger] hits[j]).score.key()
}

proof fn lemma_kept_descending(ranked: Seq<ScoredHit>, facts: Seq<RecallFacts>)
    requires
        ranked.len() == facts.len(),
        descending(ranked),
    ensures
        descending(kept(ranked, facts)),
    decreases ranked.len(),
{
    if ranked.len() > 0 {
        let fewer = ranked.drop_last();
        assert(descending(fewer)) by {
            assert forall|i: int, j: int| 0 <= i < j < fewer.len() implies (
            #[trigger] fewer[i]).score.key() >= (#[trigger] fewer[j]).score.key() by {
                assert(ranked[i].score.key() >= ranked[j].score.key());
            }
        }
        lemma_kept_descending(fewer, facts.drop_last());
        let rest = kept(fewer, facts.drop_last());
        let all = kept(ranked, facts);
        assert forall|i: int, j: int| 0 <= i < j < all.len() implies (
        #[trigger] all[i]).score.key() >= (#[trigger] all[j]).score.key() by {
            if j == rest.len() {
                lemma_kept_members(fewer, facts.drop_last(), i);
                let m = choose|m: int|
                    0 <= m < fewer.len() && #[trigger] fewer[m] == rest[i] && recallable(
                        facts.drop_last()[m],
                    );
                assert(ranked[m].score.key() >= ranked[ranked.len() - 1].score.key());
            }
        }
    }
}

/// Where every score is a number, the scores of a recall never increase.
pub proof fn law_recall_descends(scored: Seq<ScoredHit>, facts: Seq<RecallFacts>, k: usize)
    requires
        scored.len() == facts.len(),
        forall|i: int| 0 <= i < scored.len() ==> !(#[trigger] scored[i]).score.nan(),
    ensures
        descending(recalled(by_score(scored), facts, k)),
{
    let ranked = by_score(scored);
    law_search_ranks(scored, 0);
    law_sort_keeps_items(
        scored,
        |a: ScoredHit, b: ScoredHit| ScoredHit::ranks_before(a, b),
    );
    lemma_kept_descending(ranked, facts);
    let all = kept(ranked, facts);
    let res = recalled(ranked, facts, k);
    assert forall|i: int, j: int| 0 <= i < j < res.len() implies (#[trigger] res[i]).score.key()
        >= (#[trigger] res[j]).score.key() by {
        assert(all[i].score.key() >= all[j].score.key());
    }
}

/// How much a recall asks a search for: three times what is wanted, since some
/// of it may be left out.
pub fn recall_fetch(k: usize) -> (res: usize)
    requires
        k * 3 <= usize::MAX,
    ensures
        res == k * 3,
{
    k * 3
}

// ---------------------------------------------------------------------------
// Several questions
// ---------------------------------------------------------------------------
/// The positions of an identity in several ranked lists.
pub open spec fn all_positions(lists: Seq<Seq<MemoryId>>, id: MemoryId) -> Seq<usize>
    decreases lists.len(),
{
    if lists.len() == 0 {
        Seq::empty()
    } else {
        all_positions(lists.drop_last(), id) + positions(lists.last(), id)
    }
}

/// Several ranked lists one after another.
pub open spec fn chained(lists: Seq<Seq<MemoryId>>) -> Seq<MemoryId>
    decreases lists.len(),
{
    if lists.len() == 0 {
        Seq::empty()
    } else {
        chained(lists.drop_last()) + lists.last()
    }
}

/// Several ranked lists made into one: each memory once, with all its
/// positions.
pub open spec fn fused_lists(lists: Seq<Seq<MemoryId>>) -> Seq<Fused> {
    distinct(chained(lists)).map_values(
        |id: MemoryId| Fused { id, ranks: all_positions(lists, id) },
    )
}

pub open spec fn id_lists(lists: Seq<Vec<MemoryId>>) -> Seq<Seq<MemoryId>> {
    lists.map_values(|l: Vec<MemoryId>| l@)
}

/// Fuses the results of several questions.
pub fn fuse_lists(lists: &Vec<Vec<MemoryId>>) -> (res: Vec<FusedHit>)
    ensures
        views_of(res@) == fused_lists(id_lists(lists@)),
{
    let ghost all = id_lists(lists@);
    let mut ids: Vec<MemoryId> = Vec::new();
    proof {
        assert(ids@ =~= distinct(chained(all.take(0))));
    }
    for i in 0..lists.len()
        invariant
            all == id_lists(lists@),
            ids@ == distinct(chained(all.take(i as int))),
    {
        let list = &lists[i];
        let ghost before = chained(all.take(i as int));
        proof {
            assert(all.take(i + 1).drop_last() =~= all.take(i as int));
            assert(all.take(i + 1).last() == list@);
            assert(before + list@.take(0) =~= before);
        }
        for j in 0..list.len()
            invariant
                ids@ == distinct(before + list@.take(j as int)),
        {
            proof {
                let now = before + list@.take(j + 1);
                assert(now.drop_last() =~= before + list@.take(j as int));
                assert(now.last() == list@[j as int]);
            }
            if !has_id(&ids, list[j]) {
                ids.push(list[j]);
            }
        }
        proof {
            assert(list@.take(list.len() as int) =~= list@);
        }
    }
    proof {
        assert(all.take(all.len() as int) =~= all);
    }
    let ghost make = |id: MemoryId| Fused { id, ranks: all_positions(all, id) };
    let mut out: Vec<FusedHit> = Vec::new();
    for i in 0..ids.len()
        invariant
            all == id_lists(lists@),
            make == (|id: MemoryId| Fused { id, ranks: all_positions(all, id) }),
            views_of(out@) == ids@.take(i as int).map_values(make),
    {
        let id = ids[i];
        let ghost so_far = out@;
        let mut ranks: Vec<usize> = Vec::new();
        for l in 0..lists.len()
            invariant
                all == id_lists(lists@),
                ranks@ == all_positions(all.take(l as int), id),
        {
            let list = &lists[l];
            let ghost start = ranks@;
            proof {
                assert(all.take(l + 1).drop_last() =~= all.take(l as int));
                assert(all.take(l + 1).last() == list@);
                assert(start + positions(list@.take(0), id) =~= start);
            }
            for j in 0..list.len()
                invariant
                    ranks@ == start + positions(list@.take(j as int), id),
            {
                proof {
                    assert(list@.take(j + 1).drop_last() =~= list@.take(j as int));
                }
                if list[j] == id {
                    ranks.push(j);
                }
                assert(ranks@ =~= start + positions(list@.take(j + 1), id));
            }
            proof {
                assert(list@.take(list.len() as int) =~= list@);
            }
        }
        proof {
            assert(all.take(all.len() as int) =~= all);
        }
        let hit = FusedHit { id, ranks };
        out.push(hit);
        assert(views_of(out@) =~= views_of(so_far).push(hit@));
        assert(views_of(out@) =~= ids@.take(i + 1).map_values(make));
    }
    proof {
        assert(ids@.take(ids.len() as int) =~= ids@);
    }
    out
}

// ---------------------------------------------------------------------------
// Single memories
// ---------------------------------------------------------------------------
/// A memory that was looked up by its identity; none is an error.
pub fn found_memory(node: Option<MemoryNode>, id: MemoryId) -> (res: Result<MemoryNode, MenteError>)
    ensures
        match res {
            Ok(n) => node == Some(n),
            Err(e) => node is None && e@ == ErrorView::MemoryNotFound(id),
        },
{
    match node {
        Some(n) => Ok(n),
        None => Err(MenteError::MemoryNotFound(id)),
    }
}

/// What forgetting a memory answers, from whether it was there: one that was not
/// is an error.
pub fn forget(deleted: bool, id: MemoryId) -> (res: Result<(), MenteError>)
    ensures
        match res {
            Ok(_) => deleted,
            Err(e) => !deleted && e@ == ErrorView::MemoryNotFound(id),
        },
{
    if deleted {
        Ok(())
    } else {
        Err(MenteError::MemoryNotFound(id))
    }
}

/// A memory that is no longer valid from a point in time on.
pub fn invalidate_memory(node: Option<MemoryNode>, id: MemoryId, at: Timestamp) -> (res: Result<
    MemoryNode,
    MenteError,
>)
    ensures
        match res {
            Ok(n) => node is Some && n@ == (MemoryView { valid_until: Some(at), ..node->0@ }),
            Err(e) => node is None && e@ == ErrorView::MemoryNotFound(id),
        },
{
    let mut n = found_memory(node, id)?;
    n.valid_until = Some(at);
    Ok(n)
}

} // verus!
