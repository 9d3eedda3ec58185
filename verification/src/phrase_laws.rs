//! How phrases are cut out of lines and questions, what single lines mention, and what
//! the groups and contexts of entities hold.
use crate::contexts::with_mention;
use crate::entities::{gathered, grouped, memories_of};
use crate::entity_extraction::{
    canonical_name, comma_list, extracted, first_value, list_item, name_mentions, name_part,
    plain_phrase, project_mentions, stable_type, value_of_field, without_section,
    EntityExtractionConfig, ExtractedEntity, Mention,
};
use crate::extraction_jobs::{
    blank_problem, confidence_problem, object_problem, span_problem, time_problem,
    unknown_problem,
};
use crate::float::Single;
use crate::keyed::{key_index, law_key_index};
use crate::memory::{ErrorView, MemoryId, MemoryView, Timestamp};
use crate::order::{views_of, Ranked};
use crate::policy_runs::{
    archive_change, archive_changes, decay_change, decay_changes, is_global_run, GlobalRun,
    PolicyResultView, PolicyScopeView,
};
use crate::recall::question_word;
use crate::text::{
    joined, lower_form, replaced, split_at_first, starts_with, text_before, trimmed,
    trimmed_both, trimmed_end, without_prefixes, words, CharClass,
};
use crate::text_laws::{law_prefix, law_replaced};
use vstd::prelude::*;

verus! {

// ---------------------------------------------------------------------------
// Phrases
// ---------------------------------------------------------------------------
/// A list that joins its items by `with`, `and` or `plus` is the list that joins them
/// by commas. A list without these words stays as it is.
pub proof fn law_comma_list(value: Seq<char>)
    ensures
        comma_list(value) == replaced(
            replaced(replaced(value, " with "@, ","@), " and "@, ","@),
            " plus "@,
            ","@,
        ),
        split_at_first(value, " with "@) is None && split_at_first(value, " and "@) is None
            && split_at_first(value, " plus "@) is None ==> comma_list(value) == value,
{
    reveal_strlit(" with ");
    reveal_strlit(" and ");
    reveal_strlit(" plus ");
    law_replaced(value, " with "@, ","@);
    law_replaced(value, " and "@, ","@);
    law_replaced(value, " plus "@, ","@);
}

/// An item of a list is its part without white space around it, without leading
/// `and` and `with`, and without the full stops behind it.
pub proof fn law_list_item(part: Seq<char>)
    ensures
        list_item(part) == trimmed(
            trimmed_end(
                without_prefixes(without_prefixes(trimmed(part), "and "@), "with "@),
                CharClass::Stop,
            ),
        ),
        !starts_with(trimmed(part), "and "@) && !starts_with(trimmed(part), "with "@)
            ==> list_item(part) == trimmed(trimmed_end(trimmed(part), CharClass::Stop)),
{
}

/// The value of a field counts up to its first full stop that a space follows.
pub proof fn law_first_value(value: Seq<char>)
    ensures
        split_at_first(value, ". "@) matches Some((head, _)) ==> first_value(value) == trimmed(
            trimmed_end(head, CharClass::Stop),
        ),
        split_at_first(value, ". "@) is None ==> first_value(value) == trimmed(
            trimmed_end(value, CharClass::Stop),
        ),
{
}

/// A phrase is cleaned of what wraps it and of the full stops behind it, with one
/// space between its words. A word of a question is cleaned likewise, also of what
/// asks, and is in lower case.
pub proof fn law_phrases_cleaned(raw: Seq<char>)
    ensures
        plain_phrase(raw) == joined(
            words(trimmed_end(trimmed_both(trimmed(raw), CharClass::Wrapping), CharClass::Stop)),
            " "@,
        ),
        question_word(raw) == lower_form(
            trimmed_end(trimmed_both(raw, CharClass::Asking), CharClass::Stop),
        ),
{
}

/// A line that begins with a section in brackets counts from behind it.
pub proof fn law_section_dropped(line: Seq<char>, section: Seq<char>, rest: Seq<char>)
    requires
        trimmed(line) == seq!['['] + section + seq![']'] + rest,
        !section.contains(']'),
    ensures
        without_section(line) == trimmed(rest),
{
    reveal_strlit("[");
    reveal_strlit("]");
    let tail = section + seq![']'] + rest;
    assert("["@ =~= seq!['[']);
    assert("]"@ =~= seq![']']);
    assert(trimmed(line) =~= "["@ + tail);
    law_prefix(trimmed(line), "["@, tail);
    crate::field_laws::lemma_split_here(section, ']', "]"@, rest);
}

/// A line that begins with `Project ` mentions the project whose name follows, with
/// the confidence of fields and its name as the evidence.
pub proof fn law_project_mention(config: EntityExtractionConfig, rest: Seq<char>)
    requires
        trimmed(name_part(rest)).len() > 0,
        canonical_name(name_part(rest)) is Some,
    ensures
        ({
            let all = project_mentions(config, "Project "@ + rest);
            &&& all.len() == 1
            &&& all[0].canonical == canonical_name(name_part(rest))->0
            &&& all[0].entity_type == stable_type("project"@)
            &&& all[0].role == Some("subject"@)
            &&& all[0].confidence == config.structured_confidence
            &&& all[0].evidence == Some(trimmed(name_part(rest)))
        }),
{
    law_prefix("Project "@ + rest, "Project "@, rest);
}

/// A field `Name` mentions the person that its value names, with the confidence of
/// fields.
pub proof fn law_name_mention(config: EntityExtractionConfig, clean: Seq<char>, value: Seq<char>)
    requires
        value_of_field(clean, "Name"@) == Some(value),
        canonical_name(first_value(value)) is Some,
    ensures
        ({
            let all = name_mentions(config, clean);
            &&& all.len() == 1
            &&& all[0].canonical == canonical_name(first_value(value))->0
            &&& all[0].entity_type == stable_type("person"@)
            &&& all[0].role == Some("subject"@)
            &&& all[0].confidence == config.structured_confidence
        }),
{
}

/// The entities of a memory come in the order of their confidence, the highest
/// first, and those that are equally confident in the order of their names.
pub proof fn law_entities_ranked(
    config: EntityExtractionConfig,
    text: Seq<char>,
    tags: Seq<Seq<char>>,
    i: int,
    j: int,
)
    requires
        !config.tag_confidence.nan(),
        !config.structured_confidence.nan(),
        0 <= i < j < extracted(config, text, tags).len(),
    ensures
        ({
            let a = extracted(config, text, tags)[i];
            let b = extracted(config, text, tags)[j];
            &&& !a.confidence.less(b.confidence)
            &&& b.confidence.less(a.confidence) || !text_before(b.canonical, a.canonical)
        }),
{
    let rank = |a: Mention, b: Mention| ExtractedEntity::ranks_before(a, b);
    crate::entity_extraction::law_extraction_sorted(config, text, tags);
    let out = extracted(config, text, tags);
    assert(!rank(out[j], out[i]));
}

// ---------------------------------------------------------------------------
// Problems
// ---------------------------------------------------------------------------
/// What is said of a wrong value: a blank text, a confidence out of bounds, bounds
/// out of order, a text that is no JSON object, and a reference to nothing.
pub proof fn law_problem_texts(
    value: Seq<char>,
    c: Single,
    from: i64,
    until: i64,
    start: Timestamp,
    end: Timestamp,
    record: Seq<char>,
    field: Seq<char>,
    message: Seq<char>,
)
    ensures
        trimmed(value).len() == 0 ==> blank_problem(value, field) == Some(
            ErrorView::InvalidInput(field + " must not be empty"@),
        ),
        !c.in_unit() ==> confidence_problem(c, field) == Some(
            ErrorView::InvalidInput(field + " must be finite and between 0 and 1"@),
        ),
        from > until ==> span_problem(Some(from), Some(until), field) == Some(
            ErrorView::InvalidInput(field + " start must be <= end"@),
        ),
        start > end ==> time_problem(Some(start), Some(end), field) == Some(
            ErrorView::InvalidInput(field + " start must be <= end"@),
        ),
        object_problem(Err(message), field) == Some(
            ErrorView::Serialization(field + " must be valid JSON: "@ + message),
        ),
        unknown_problem(false, value, record, field) == Some(
            ErrorView::InvalidInput(record + " references unknown "@ + field + ": "@ + value),
        ),
        unknown_problem(true, value, record, field) is None,
{
}

// ---------------------------------------------------------------------------
// Runs
// ---------------------------------------------------------------------------
/// A run over all memories says what policy it is of, that it was applied, when, and
/// how many memories it changed. Its actions and events say what was done to each.
pub proof fn law_runs_say(
    run: GlobalRun,
    run_id: Seq<char>,
    memories: Seq<MemoryView>,
    decisions: Seq<crate::lifecycle::ArchivalDecision>,
    decayed: Seq<Option<Single>>,
    now: Timestamp,
    i: int,
)
    requires
        memories.len() == decisions.len(),
        memories.len() == decayed.len(),
        0 <= i < run.actions@.len(),
    ensures
        is_global_run(
            run,
            "archive"@,
            run_id,
            archive_changes(run_id, memories, decisions, now),
            now,
        ) ==> {
            &&& run.run@.policy == "archive"@
            &&& run.run@.mode == "apply"@
            &&& run.run@.status == "applied"@
            &&& run.run@.completed_at == Some(now)
            &&& run.run@.scope == PolicyScopeView::Global
            &&& run.run@.result == PolicyResultView::MemoryCount(run.updates@.len())
            &&& run.actions@[i]@.action_type == "archive_memory"@
            &&& run.actions@[i]@.target_type == "memory"@
            &&& run.actions@[i]@.status == "applied"@
            &&& run.lifecycle_events@[i]@.event_type == "archived"@
            &&& run.lifecycle_events@[i]@.policy == Some("archive"@)
        },
        is_global_run(
            run,
            "decay"@,
            run_id,
            decay_changes(run_id, memories, decayed, now),
            now,
        ) ==> {
            &&& run.run@.policy == "decay"@
            &&& run.run@.mode == "apply"@
            &&& run.run@.status == "applied"@
            &&& run.run@.completed_at == Some(now)
            &&& run.run@.scope == PolicyScopeView::Global
            &&& run.run@.result == PolicyResultView::MemoryCount(run.updates@.len())
            &&& run.actions@[i]@.action_type == "decay_memory"@
            &&& run.actions@[i]@.target_type == "memory"@
            &&& run.actions@[i]@.status == "applied"@
            &&& run.lifecycle_events@[i]@.event_type == "decayed"@
            &&& run.lifecycle_events@[i]@.policy == Some("decay"@)
        },
{
    assert(run.updates@.len() == views_of(run.updates@).len());
    assert(run.actions@.len() == views_of(run.actions@).len());
    assert(run.lifecycle_events@.len() == views_of(run.lifecycle_events@).len());
    assert(views_of(run.actions@)[i] == run.actions@[i]@);
    if is_global_run(
        run,
        "archive"@,
        run_id,
        archive_changes(run_id, memories, decisions, now),
        now,
    ) {
        let changes = archive_changes(run_id, memories, decisions, now);
        let places = crate::run_laws::lemma_archive_places(run_id, memories, decisions, now);
        let m = memories[places[i]];
        assert(changes[i] == archive_change(run_id, m, now));
        assert(views_of(run.actions@)[i] == changes[i].action);
        assert(views_of(run.lifecycle_events@)[i] == changes[i].event);
    }
    if is_global_run(run, "decay"@, run_id, decay_changes(run_id, memories, decayed, now), now) {
        let changes = decay_changes(run_id, memories, decayed, now);
        let places = crate::run_laws::lemma_decay_places(run_id, memories, decayed, now);
        let m = memories[places[i]];
        assert(changes[i] == decay_change(run_id, m, decayed[places[i]]->0, now));
        assert(views_of(run.actions@)[i] == changes[i].action);
        assert(views_of(run.lifecycle_events@)[i] == changes[i].event);
    }
}

// ---------------------------------------------------------------------------
// Groups and contexts
// ---------------------------------------------------------------------------
/// Whether a group holds a name.
pub open spec fn in_group(
    groups: Seq<(Seq<char>, Seq<Seq<char>>)>,
    canonical: Seq<char>,
    name: Seq<char>,
) -> bool {
    exists|g: int|
        0 <= g < groups.len() && (#[trigger] groups[g]).0 == canonical && groups[g].1.contains(name)
}

/// A name that resolves to another one is in the group of that one.
pub proof fn law_grouped(names: Seq<Seq<char>>, resolved: Seq<Option<Seq<char>>>, k: int)
    requires
        names.len() == resolved.len(),
        0 <= k < names.len(),
        resolved[k] is Some,
    ensures
        in_group(grouped(names, resolved), resolved[k]->0, names[k]),
    decreases names.len(),
{
    let head = grouped(names.drop_last(), resolved.drop_last());
    let all = grouped(names, resolved);
    if let Some(c) = resolved.last() {
        law_key_index(head, c);
    }
    if k < names.len() - 1 {
        law_grouped(names.drop_last(), resolved.drop_last(), k);
        let g = choose|g: int|
            0 <= g < head.len() && (#[trigger] head[g]).0 == resolved[k]->0 && head[g].1.contains(
                names[k],
            );
        let i = choose|i: int| 0 <= i < head[g].1.len() && head[g].1[i] == names[k];
        assert(all[g].0 == head[g].0);
        assert(all[g].1[i] == names[k]);
    } else {
        let c = resolved[k]->0;
        match key_index(head, c) {
            Some(g) => {
                assert(all[g].0 == c);
                assert(all[g].1[head[g].1.len() as int] == names[k]);
            },
            None => {
                assert(all[head.len() as int].1[0] == names[k]);
            },
        }
    }
}

/// The memories under some names are those under any of them.
pub proof fn law_gathered(
    map: Seq<(Seq<char>, Seq<MemoryId>)>,
    names: Seq<Seq<char>>,
    id: MemoryId,
)
    ensures
        gathered(map, names).contains(id) <==> exists|k: int|
            0 <= k < names.len() && memories_of(map, #[trigger] names[k]).contains(id),
    decreases names.len(),
{
    if names.len() > 0 {
        let head = names.drop_last();
        law_gathered(map, head, id);
        let a = gathered(map, head);
        let b = memories_of(map, names.last());
        let all = gathered(map, names);
        if a.contains(id) {
            let i = choose|i: int| 0 <= i < a.len() && a[i] == id;
            assert(all[i] == id);
            let k = choose|k: int|
                0 <= k < head.len() && memories_of(map, #[trigger] head[k]).contains(id);
            assert(names[k] == head[k]);
        }
        if b.contains(id) {
            let i = choose|i: int| 0 <= i < b.len() && b[i] == id;
            assert(all[a.len() + i] == id);
            assert(memories_of(map, names[names.len() - 1]).contains(id));
        }
        if all.contains(id) {
            let i = choose|i: int| 0 <= i < all.len() && all[i] == id;
            if i < a.len() {
                assert(a[i] == id);
            } else {
                assert(b[i - a.len()] == id);
            }
        }
        if exists|k: int|
            0 <= k < names.len() && memories_of(map, #[trigger] names[k]).contains(id) {
            let k = choose|k: int|
                0 <= k < names.len() && memories_of(map, #[trigger] names[k]).contains(id);
            if k < head.len() {
                assert(head[k] == names[k]);
            }
        }
    }
}

/// A memory is mentioned in the context of its name, at its place where that is known
/// and else behind the others; no other context changes.
pub proof fn law_with_mention(
    map: Seq<(Seq<char>, Seq<char>)>,
    name: Seq<char>,
    content: Seq<char>,
)
    requires
        with_mention(map, name, content) is Some,
    ensures
        ({
            let out = with_mention(map, name, content)->0;
            &&& exists|i: int| 0 <= i < out.len() && (#[trigger] out[i]).0 == name
            &&& forall|i: int|
                0 <= i < map.len() && (#[trigger] map[i]).0 != name ==> out[i] == map[i]
            &&& out.len() == map.len() || out.len() == map.len() + 1
        }),
{
    law_key_index(map, name);
    let out = with_mention(map, name, content)->0;
    match key_index(map, name) {
        Some(i) => {
            assert(out[i].0 == name);
        },
        None => {
            assert(out[map.len() as int].0 == name);
        },
    }
}

} // verus!
