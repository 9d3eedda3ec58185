//! What the filters, the boosts and the aliases of a recall mean.
use crate::entity_extraction::EntityExtractionConfig;
use crate::float::Single;
use crate::memory::{MemoryId, MemoryNode, Timestamp};
use crate::recall::{
    hit_index, in_range, link_confidences, merged_recall, only_boosted, phrase, phrase_words,
    phrases_from, phrases_up_to, question_aliases, question_word, question_words, strongest,
    tags_pass, with_question_alias, RecallHit,
};
use crate::records::MemoryEntityLink;
use crate::run_laws::lemma_places_grow;
use crate::search::{found_in, ScoredHit};
use crate::text::{byte_count, joined, words};
use vstd::prelude::*;

verus! {

// ---------------------------------------------------------------------------
// Filters
// ---------------------------------------------------------------------------
/// Without wanted tags every memory passes; a list of wanted tags that is empty
/// passes none. A memory passes for any of the tags if and only if it has one of
/// them, and for all of them if and only if it has each.
pub proof fn law_tags_pass(own: Seq<Seq<char>>, wanted: Seq<Seq<char>>, any: bool)
    ensures
        tags_pass(own, None, any),
        wanted.len() == 0 ==> !tags_pass(own, Some(wanted), any),
        tags_pass(own, Some(wanted), true) <==> exists|t: Seq<char>| #[trigger]
            wanted.contains(t) && own.contains(t),
        wanted.len() > 0 ==> (tags_pass(own, Some(wanted), false) <==> forall|t: Seq<char>|
            #[trigger] wanted.contains(t) ==> own.contains(t)),
{
    if tags_pass(own, Some(wanted), true) {
        let i = choose|i: int| 0 <= i < wanted.len() && own.contains(#[trigger] wanted[i]);
        assert(wanted.contains(wanted[i]));
    }
    if exists|t: Seq<char>| #[trigger] wanted.contains(t) && own.contains(t) {
        let t = choose|t: Seq<char>| #[trigger] wanted.contains(t) && own.contains(t);
        let i = choose|i: int| 0 <= i < wanted.len() && wanted[i] == t;
        assert(own.contains(wanted[i]));
    }
    if wanted.len() > 0 && (forall|t: Seq<char>| #[trigger]
        wanted.contains(t) ==> own.contains(t)) {
        assert forall|i: int| 0 <= i < wanted.len() implies own.contains(#[trigger] wanted[i]) by {
            assert(wanted.contains(wanted[i]));
        }
    }
    if wanted.len() > 0 && tags_pass(own, Some(wanted), false) {
        assert forall|t: Seq<char>| #[trigger] wanted.contains(t) implies own.contains(t) by {
            let i = choose|i: int| 0 <= i < wanted.len() && wanted[i] == t;
            assert(own.contains(wanted[i]));
        }
    }
}

/// A time is in a range if it is neither before its start nor behind its end.
/// Without a range every time is.
pub proof fn law_in_range(at: Timestamp, start: Timestamp, end: Timestamp)
    ensures
        in_range(at, None),
        at < start ==> !in_range(at, Some((start, end))),
        at > end ==> !in_range(at, Some((start, end))),
        start <= at && at <= end ==> in_range(at, Some((start, end))),
{
}

// ---------------------------------------------------------------------------
// Boosts
// ---------------------------------------------------------------------------
/// Where a memory is first found.
pub proof fn law_hit_index(hits: Seq<ScoredHit>, id: MemoryId)
    ensures
        match hit_index(hits, id) {
            Some(i) => 0 <= i < hits.len() && hits[i].id == id && forall|j: int|
                0 <= j < i ==> (#[trigger] hits[j]).id != id,
            None => forall|j: int| 0 <= j < hits.len() ==> (#[trigger] hits[j]).id != id,
        },
    decreases hits.len(),
{
    if hits.len() > 0 {
        let head = hits.drop_last();
        law_hit_index(head, id);
        assert forall|j: int| 0 <= j < head.len() implies (#[trigger] hits[j]) == head[j] by {}
        match hit_index(head, id) {
            Some(i) => {
                assert forall|j: int| 0 <= j < i implies (#[trigger] hits[j]).id != id by {
                    assert(head[j].id != id);
                }
            },
            None => {
                assert forall|j: int| 0 <= j < head.len() implies (
                #[trigger] hits[j]).id != id by {
                    assert(head[j].id != id);
                }
            },
        }
    }
}

/// What the strongest boosts become with one more boost.
proof fn lemma_strongest_step(boosts: Seq<ScoredHit>)
    requires
        boosts.len() > 0,
    ensures
        ({
            let rest = strongest(boosts.drop_last());
            let b = boosts.last();
            let all = strongest(boosts);
            match hit_index(rest, b.id) {
                Some(p) => {
                    &&& 0 <= p < rest.len()
                    &&& rest[p].id == b.id
                    &&& all.len() == rest.len()
                    &&& all[p].id == b.id
                    &&& all[p] == rest[p] || all[p] == b
                    &&& !all[p].score.less(rest[p].score)
                    &&& !all[p].score.less(b.score)
                    &&& !rest[p].score.nan() || !b.score.nan() ==> !all[p].score.nan()
                    &&& forall|i: int| 0 <= i < all.len() && i != p ==> #[trigger] all[i] == rest[i]
                },
                None => all == rest.push(b) && forall|i: int|
                    0 <= i < rest.len() ==> (#[trigger] rest[i]).id != b.id,
            }
        }),
{
    law_hit_index(strongest(boosts.drop_last()), boosts.last().id);
}

proof fn lemma_strongest_members(boosts: Seq<ScoredHit>)
    ensures
        forall|i: int|
            0 <= i < strongest(boosts).len() ==> boosts.contains(#[trigger] strongest(boosts)[i]),
    decreases boosts.len(),
{
    if boosts.len() > 0 {
        let head = boosts.drop_last();
        let rest = strongest(head);
        let all = strongest(boosts);
        let b = boosts.last();
        lemma_strongest_members(head);
        lemma_strongest_step(boosts);
        assert(boosts[boosts.len() - 1] == b);
        assert forall|x: ScoredHit| #[trigger] head.contains(x) implies boosts.contains(x) by {
            let k = choose|k: int| 0 <= k < head.len() && head[k] == x;
            assert(boosts[k] == x);
        }
        assert forall|i: int| 0 <= i < all.len() implies boosts.contains(#[trigger] all[i]) by {
            if i < rest.len() {
                assert(head.contains(rest[i]));
            }
        }
    }
}

/// A memory that has a boost keeps one.
pub proof fn law_boost_stays(boosts: Seq<ScoredHit>, j: int)
    requires
        0 <= j < boosts.len(),
    ensures
        found_in(strongest(boosts), boosts[j].id),
    decreases boosts.len(),
{
    let head = boosts.drop_last();
    let rest = strongest(head);
    let all = strongest(boosts);
    lemma_strongest_step(boosts);
    if j < head.len() {
        law_boost_stays(head, j);
        let i = choose|i: int| 0 <= i < rest.len() && (#[trigger] rest[i]).id == head[j].id;
        assert(all[i].id == rest[i].id);
    } else {
        match hit_index(rest, boosts.last().id) {
            Some(p) => {
                assert(all[p].id == boosts[j].id);
            },
            None => {
                assert(all[rest.len() as int].id == boosts[j].id);
            },
        }
    }
}

/// Of the boosts of a memory the strongest one counts: what is kept for the memory
/// is one of its boosts, none of them is stronger, and it is a number where one of
/// them is.
pub proof fn law_strongest(boosts: Seq<ScoredHit>, i: int, j: int)
    requires
        0 <= i < strongest(boosts).len(),
        0 <= j < boosts.len(),
        strongest(boosts)[i].id == boosts[j].id,
    ensures
        boosts.contains(strongest(boosts)[i]),
        !strongest(boosts)[i].score.less(boosts[j].score),
        !boosts[j].score.nan() ==> !strongest(boosts)[i].score.nan(),
    decreases boosts.len(),
{
    lemma_strongest_members(boosts);
    let head = boosts.drop_last();
    let rest = strongest(head);
    let all = strongest(boosts);
    let b = boosts.last();
    lemma_strongest_step(boosts);
    match hit_index(rest, b.id) {
        Some(p) => {
            if j < head.len() {
                assert(all[i].id == rest[i].id);
                law_strongest(head, i, j);
            } else if i != p {
                crate::recall::law_one_boost_each(boosts);
                if i < p {
                    assert(all[i].id != all[p].id);
                } else {
                    assert(all[p].id != all[i].id);
                }
            }
        },
        None => {
            if j < head.len() {
                if i < rest.len() {
                    law_strongest(head, i, j);
                } else {
                    law_boost_stays(head, j);
                    let k = choose|k: int|
                        0 <= k < rest.len() && (#[trigger] rest[k]).id == head[j].id;
                    assert(rest[k].id != b.id);
                }
            }
        },
    }
}

/// An entity boosts the memories of its links that are there and pass the filters,
/// in the order of the links, and no others. `places` are the places of those
/// links. A boost is as strong as the confidence of the link, but not below 0.
pub proof fn law_links_boost(
    links: Seq<MemoryEntityLink>,
    memories: Seq<Option<MemoryNode>>,
    tags: Option<Seq<Seq<char>>>,
    any: bool,
    range: Option<(Timestamp, Timestamp)>,
) -> (places: Seq<int>)
    requires
        memories.len() <= links.len(),
    ensures
        link_confidences(links, memories, tags, any, range).len() == places.len(),
        forall|k: int|
            0 <= k < memories.len() ==> (#[trigger] places.contains(k) <==> memories[k] is Some
                && tags_pass(memories[k]->0@.tags, tags, any) && in_range(
                memories[k]->0.created_at,
                range,
            )),
        forall|i: int, j: int|
            0 <= i < j < places.len() ==> #[trigger] places[i] < #[trigger] places[j],
        forall|i: int|
            0 <= i < places.len() ==> {
                let boost = link_confidences(links, memories, tags, any, range)[i];
                let link = links[#[trigger] places[i]];
                &&& 0 <= places[i] < memories.len()
                &&& boost.id == link.memory_id
                &&& boost.score == link.confidence || boost.score.bits == 0
                &&& !boost.score.less(Single { bits: 0 })
                &&& !boost.score.less(link.confidence)
            },
    decreases memories.len(),
{
    if memories.len() == 0 {
        Seq::empty()
    } else {
        let head = memories.drop_last();
        let n = memories.len() - 1;
        let before = law_links_boost(links, head, tags, any, range);
        let rest = link_confidences(links, head, tags, any, range);
        let all = link_confidences(links, memories, tags, any, range);
        assert forall|i: int| 0 <= i < before.len() implies {
            let boost = all[i];
            let link = links[#[trigger] before[i]];
            &&& 0 <= before[i] < memories.len()
            &&& boost.id == link.memory_id
            &&& boost.score == link.confidence || boost.score.bits == 0
            &&& !boost.score.less(Single { bits: 0 })
            &&& !boost.score.less(link.confidence)
        } by {
            assert(all[i] == rest[i]);
        }
        assert forall|k: int| 0 <= k < n implies (#[trigger] before.contains(k)
            <==> memories[k] is Some && tags_pass(memories[k]->0@.tags, tags, any) && in_range(
            memories[k]->0.created_at,
            range,
        )) by {
            assert(head[k] == memories[k]);
        }
        lemma_places_grow(before, n);
        if memories[n] is Some && tags_pass(memories[n]->0@.tags, tags, any) && in_range(
            memories[n]->0.created_at,
            range,
        ) {
            before.push(n)
        } else {
            before
        }
    }
}

/// A recall considers each result of the search at its place, with its score and
/// with the boost of its memory where it has one, and behind these each boost of a
/// memory that the search did not find, without a score.
pub proof fn law_recall_considers(results: Seq<ScoredHit>, boosts: Seq<ScoredHit>)
    requires
        crate::search::each_once(boosts),
    ensures
        forall|i: int|
            0 <= i < results.len() ==> (#[trigger] merged_recall(results, boosts)[i]).id
                == results[i].id && merged_recall(results, boosts)[i].found == Some(
                results[i].score,
            ),
        forall|i: int, j: int|
            0 <= i < results.len() && 0 <= j < boosts.len() && (#[trigger] boosts[j]).id
                == results[i].id ==> (#[trigger] merged_recall(results, boosts)[i]).boost == Some(
                boosts[j].score,
            ),
        forall|i: int|
            0 <= i < results.len() && (forall|j: int|
                0 <= j < boosts.len() ==> (#[trigger] boosts[j]).id != results[i].id) ==> (
            #[trigger] merged_recall(results, boosts)[i]).boost is None,
        forall|j: int|
            0 <= j < boosts.len() && (forall|i: int|
                0 <= i < results.len() ==> (#[trigger] results[i]).id != boosts[j].id)
                ==> exists|m: int|
                results.len() <= m < merged_recall(results, boosts).len() && #[trigger]
                    merged_recall(results, boosts)[m] == (RecallHit {
                    id: (#[trigger] boosts[j]).id,
                    found: None,
                    boost: Some(boosts[j].score),
                }),
{
    let all = merged_recall(results, boosts);
    let more = only_boosted(results, boosts);
    assert forall|i: int, j: int|
        0 <= i < results.len() && 0 <= j < boosts.len() && (#[trigger] boosts[j]).id
            == results[i].id implies (#[trigger] all[i]).boost == Some(boosts[j].score) by {
        law_hit_index(boosts, results[i].id);
        let p = hit_index(boosts, results[i].id)->0;
        if p < j {
            assert(boosts[p].id != boosts[j].id);
        }
    }
    assert forall|i: int|
        0 <= i < results.len() && (forall|j: int|
            0 <= j < boosts.len() ==> (#[trigger] boosts[j]).id != results[i].id) implies (
    #[trigger] all[i]).boost is None by {
        law_hit_index(boosts, results[i].id);
    }
    assert forall|j: int|
        0 <= j < boosts.len() && (forall|i: int|
            0 <= i < results.len() ==> (#[trigger] results[i]).id != boosts[j].id) implies exists|
        m: int,
    |
        results.len() <= m < all.len() && #[trigger] all[m] == (RecallHit {
            id: (#[trigger] boosts[j]).id,
            found: None,
            boost: Some(boosts[j].score),
        }) by {
        law_hit_index(results, boosts[j].id);
        lemma_only_boosted(results, boosts, j);
        let i = choose|i: int|
            0 <= i < more.len() && #[trigger] more[i] == (RecallHit {
                id: boosts[j].id,
                found: None,
                boost: Some(boosts[j].score),
            });
        assert(all[results.len() + i] == more[i]);
    }
}

proof fn lemma_only_boosted(results: Seq<ScoredHit>, boosts: Seq<ScoredHit>, j: int)
    requires
        0 <= j < boosts.len(),
        hit_index(results, boosts[j].id) is None,
    ensures
        exists|i: int|
            0 <= i < only_boosted(results, boosts).len() && #[trigger] only_boosted(
                results,
                boosts,
            )[i] == (RecallHit {
                id: boosts[j].id,
                found: None,
                boost: Some(boosts[j].score),
            }),
    decreases boosts.len(),
{
    let head = boosts.drop_last();
    let rest = only_boosted(results, head);
    let all = only_boosted(results, boosts);
    if j < head.len() {
        lemma_only_boosted(results, head, j);
        let i = choose|i: int|
            0 <= i < rest.len() && #[trigger] rest[i] == (RecallHit {
                id: head[j].id,
                found: None,
                boost: Some(head[j].score),
            });
        assert(all[i] == rest[i]);
    } else {
        assert(all[rest.len() as int].id == boosts[j].id);
    }
}

// ---------------------------------------------------------------------------
// Aliases
// ---------------------------------------------------------------------------
/// The words of a question that count are those that are long enough and have a
/// letter, in their order. `places` are their places.
pub proof fn law_question_words(raw: Seq<Seq<char>>, min: usize) -> (places: Seq<int>)
    ensures
        question_words(raw, min).len() == places.len(),
        forall|k: int|
            0 <= k < raw.len() ==> (#[trigger] places.contains(k) <==> byte_count(
                question_word(raw[k]),
            ) >= min && exists|c: int|
                0 <= c < question_word(raw[k]).len() && crate::text::is_ascii_letter(
                    #[trigger] question_word(raw[k])[c],
                )),
        forall|i: int, j: int|
            0 <= i < j < places.len() ==> #[trigger] places[i] < #[trigger] places[j],
        forall|i: int|
            0 <= i < places.len() ==> 0 <= #[trigger] places[i] < raw.len() && question_words(
                raw,
                min,
            )[i] == question_word(raw[places[i]]),
    decreases raw.len(),
{
    if raw.len() == 0 {
        Seq::empty()
    } else {
        let head = raw.drop_last();
        let n = raw.len() - 1;
        let before = law_question_words(head, min);
        assert forall|i: int| 0 <= i < before.len() implies 0 <= #[trigger] before[i] < raw.len()
            && question_words(raw, min)[i] == question_word(raw[before[i]]) by {
            assert(head[before[i]] == raw[before[i]]);
        }
        assert forall|k: int| 0 <= k < n implies (#[trigger] before.contains(k) <==> byte_count(
            question_word(raw[k]),
        ) >= min && exists|c: int|
            0 <= c < question_word(raw[k]).len() && crate::text::is_ascii_letter(
                #[trigger] question_word(raw[k])[c],
            )) by {
            assert(head[k] == raw[k]);
        }
        lemma_places_grow(before, n);
        if crate::recall::word_counts(question_word(raw[n]), min) {
            before.push(n)
        } else {
            before
        }
    }
}

/// Every run of words of a question that has no more words than an alias may have,
/// and is short enough, is one of its aliases.
pub proof fn law_question_runs(
    query: Seq<char>,
    config: EntityExtractionConfig,
    start: int,
    n: int,
)
    requires
        0 <= start,
        1 <= n <= config.max_alias_words,
        start + n <= question_words(words(query), config.min_phrase_chars).len(),
        byte_count(
            joined(
                question_words(words(query), config.min_phrase_chars).subrange(start, start + n),
                " "@,
            ),
        ) <= config.max_phrase_chars,
    ensures
        question_aliases(query, config).contains(
            joined(
                question_words(words(query), config.min_phrase_chars).subrange(start, start + n),
                " "@,
            ),
        ),
{
    let tokens = question_words(words(query), config.min_phrase_chars);
    lemma_runs_up_to(
        tokens,
        tokens.len(),
        config.max_alias_words,
        config.max_phrase_chars,
        start,
        n,
    );
}

proof fn lemma_with_alias(list: Seq<Seq<char>>, alias: Seq<char>, max: usize, x: Seq<char>)
    ensures
        list.contains(x) ==> with_question_alias(list, alias, max).contains(x),
        byte_count(alias) <= max ==> with_question_alias(list, alias, max).contains(alias),
{
    let out = with_question_alias(list, alias, max);
    if list.contains(x) {
        let i = choose|i: int| 0 <= i < list.len() && list[i] == x;
        assert(out[i] == x);
    }
    if byte_count(alias) <= max && !list.contains(alias) {
        assert(out[list.len() as int] == alias);
    }
}

proof fn lemma_runs_from(
    list: Seq<Seq<char>>,
    tokens: Seq<Seq<char>>,
    start: int,
    count: nat,
    max: usize,
    n: int,
    x: Seq<char>,
)
    ensures
        list.contains(x) ==> phrases_from(list, tokens, start, count, max).contains(x),
        1 <= n <= count && byte_count(phrase(tokens, start, n)) <= max ==> phrases_from(
            list,
            tokens,
            start,
            count,
            max,
        ).contains(phrase(tokens, start, n)),
    decreases count,
{
    if count > 0 {
        let fewer = phrases_from(list, tokens, start, (count - 1) as nat, max);
        lemma_runs_from(list, tokens, start, (count - 1) as nat, max, n, x);
        let last = phrase(tokens, start, count as int);
        lemma_with_alias(fewer, last, max, x);
        lemma_with_alias(fewer, last, max, phrase(tokens, start, n));
    }
}

proof fn lemma_runs_up_to(
    tokens: Seq<Seq<char>>,
    k: nat,
    max_words: usize,
    max: usize,
    start: int,
    n: int,
)
    requires
        0 <= start < k <= tokens.len(),
        1 <= n <= max_words,
        start + n <= tokens.len(),
        byte_count(phrase(tokens, start, n)) <= max,
    ensures
        phrases_up_to(tokens, k, max_words, max).contains(phrase(tokens, start, n)),
    decreases k,
{
    let fewer = phrases_up_to(tokens, (k - 1) as nat, max_words, max);
    if start < k - 1 {
        lemma_runs_up_to(tokens, (k - 1) as nat, max_words, max, start, n);
    }
    lemma_runs_from(
        fewer,
        tokens,
        k - 1,
        phrase_words(tokens.len() as int, k - 1, max_words),
        max,
        n,
        phrase(tokens, start, n),
    );
}

} // verus!
