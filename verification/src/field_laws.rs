//! What the fields of a line and the tags of a memory are taken to mention.
use crate::entity_extraction::{
    canonical_name, item_mentions, line_mentions, list_item, list_items, list_mentions,
    name_mentions, only_near, project_mentions, stable_type, structured_items, tag_mentions,
    type_for_tags, value_of_field, without_context, EntityExtractionConfig, Mention,
};
use crate::text::{
    after_prefix, ascii_lowercase, replaced, split_at_first, trimmed, white_space, CharClass,
};
use crate::text_laws::{law_prefix, law_replaced, law_split, law_trim};
use vstd::prelude::*;
use vstd::utf8::is_ascii_chars;

verus! {

/// The name of the field of a line, in lower case: what stands before its first
/// colon, without the white space around it. A line without a colon has none.
pub open spec fn field_name(clean: Seq<char>) -> Option<Seq<char>> {
    match split_at_first(clean, ":"@) {
        Some((head, _)) => Some(ascii_lowercase(trimmed(head))),
        None => None,
    }
}

/// A field has a value if and only if the line names it, in whatever case, before
/// its first colon; its value is what stands behind that.
pub proof fn law_field_value(line: Seq<char>, head: Seq<char>, tail: Seq<char>, field: Seq<char>)
    requires
        !head.contains(':'),
    ensures
        value_of_field(line, field) is Some ==> line.contains(':'),
        value_of_field(head + seq![':'] + tail, field) == if ascii_lowercase(trimmed(head))
            == ascii_lowercase(field) {
            Some(trimmed(tail))
        } else {
            None
        },
{
    reveal_strlit(":");
    law_split(line, ":"@);
    if let Some((h, t)) = split_at_first(line, ":"@) {
        assert(line[h.len() as int] == ':');
    }
    assert(":"@ =~= seq![':']);
    lemma_split_here(head, ':', ":"@, tail);
}

/// A text is split at the first place of a character.
pub proof fn lemma_split_here(head: Seq<char>, c: char, pat: Seq<char>, tail: Seq<char>)
    requires
        !head.contains(c),
        pat == seq![c],
    ensures
        split_at_first(head + seq![c] + tail, pat) == Some((head, tail)),
{
    let s = head + seq![c] + tail;
    let n = head.len() as int;
    law_split(s, pat);
    assert(s.subrange(n, n + 1) =~= pat);
    match split_at_first(s, pat) {
        Some((h, t)) => {
            assert(s[h.len() as int] == c) by {
                assert((h + pat + t)[h.len() as int] == c);
            }
            if h.len() < head.len() {
                assert(head[h.len() as int] == c);
                assert(head.contains(c));
            }
            if h.len() > head.len() {
                assert(s.subrange(n, n + pat.len()) != pat);
            }
            assert(h =~= head) by {
                assert forall|i: int| 0 <= i < h.len() implies h[i] == head[i] by {
                    assert((h + pat + t)[i] == s[i]);
                }
            }
            assert(t =~= tail) by {
                assert(s.skip(h.len() as int + 1) =~= t);
                assert(s.skip(n + 1) =~= tail);
            }
        },
        None => {
            assert(s.subrange(n, n + pat.len()) != pat);
        },
    }
}

/// Whether a text is made of lower-case ASCII letters.
spec fn plain_word(s: Seq<char>) -> bool {
    s.len() > 0 && forall|i: int| 0 <= i < s.len() ==> 'a' <= #[trigger] s[i] <= 'z'
}

/// A text without white space at its ends is not trimmed.
proof fn lemma_not_trimmed(s: Seq<char>)
    requires
        s.len() > 0,
        !white_space(s[0]),
        !white_space(s[s.len() - 1]),
    ensures
        trimmed(s) == s,
{
    assert(crate::text::trimmed_start(s, CharClass::White) == s);
    assert(crate::text::trimmed_end(s, CharClass::White) == s);
}

/// A text without spaces is the same with each of them replaced.
proof fn lemma_no_space(s: Seq<char>)
    requires
        !s.contains(' '),
    ensures
        replaced(s, " "@, "_"@) == s,
{
    reveal_strlit(" ");
    law_replaced(s, " "@, "_"@);
    law_split(s, " "@);
    if let Some((h, t)) = split_at_first(s, " "@) {
        assert((h + " "@ + t)[h.len() as int] == ' ');
        assert(s[h.len() as int] == ' ');
    }
}

/// A type name of lower-case letters is stable.
proof fn lemma_type_as_is(s: Seq<char>)
    requires
        plain_word(s),
    ensures
        stable_type(s) == s,
{
    assert(!white_space(s[0]) && !white_space(s[s.len() - 1])) by {
        assert('a' <= s[0] <= 'z');
        assert('a' <= s[s.len() - 1] <= 'z');
    }
    lemma_not_trimmed(s);
    assert(is_ascii_chars(s)) by {
        assert forall|i: int| 0 <= i < s.len() implies '\0' <= #[trigger] s[i] <= '\u{7f}' by {}
    }
    assert(ascii_lowercase(s) =~= s);
    assert(!s.contains(' ')) by {
        if s.contains(' ') {
            let i = choose|i: int| 0 <= i < s.len() && s[i] == ' ';
            assert('a' <= s[i]);
        }
    }
    lemma_no_space(s);
}

proof fn lemma_types()
    ensures
        stable_type("person"@) == "person"@,
        stable_type("project"@) == "project"@,
        stable_type("place"@) == "place"@,
        stable_type("organization"@) == "organization"@,
        stable_type("technology"@) == "technology"@,
{
    reveal_strlit("person");
    reveal_strlit("project");
    reveal_strlit("place");
    reveal_strlit("organization");
    reveal_strlit("technology");
    lemma_type_as_is("person"@);
    lemma_type_as_is("project"@);
    lemma_type_as_is("place"@);
    lemma_type_as_is("organization"@);
    lemma_type_as_is("technology"@);
}

proof fn lemma_fields()
    ensures
        ascii_lowercase("Name"@) == "name"@,
        ascii_lowercase("Location"@) == "location"@,
        ascii_lowercase("Base location"@) == "base location"@,
        ascii_lowercase("Organization"@) == "organization"@,
        ascii_lowercase("Company"@) == "company"@,
        ascii_lowercase("Employer"@) == "employer"@,
        ascii_lowercase("Technology"@) == "technology"@,
        ascii_lowercase("Technologies"@) == "technologies"@,
        ascii_lowercase("Stack"@) == "stack"@,
        ascii_lowercase("Core stack"@) == "core stack"@,
        "name"@.len() == 4 && "name"@[0] == 'n',
        "location"@.len() == 8 && "location"@[0] == 'l',
        "base location"@.len() == 13 && "base location"@[0] == 'b',
        "organization"@.len() == 12 && "organization"@[0] == 'o',
        "company"@.len() == 7 && "company"@[0] == 'c',
        "employer"@.len() == 8 && "employer"@[0] == 'e',
        "technology"@.len() == 10 && "technology"@[0] == 't',
        "technologies"@.len() == 12 && "technologies"@[0] == 't',
        "stack"@.len() == 5 && "stack"@[0] == 's',
        "core stack"@.len() == 10 && "core stack"@[0] == 'c',
{
    reveal_strlit("Name");
    reveal_strlit("Location");
    reveal_strlit("Base location");
    reveal_strlit("Organization");
    reveal_strlit("Company");
    reveal_strlit("Employer");
    reveal_strlit("Technology");
    reveal_strlit("Technologies");
    reveal_strlit("Stack");
    reveal_strlit("Core stack");
    reveal_strlit("name");
    reveal_strlit("location");
    reveal_strlit("base location");
    reveal_strlit("organization");
    reveal_strlit("company");
    reveal_strlit("employer");
    reveal_strlit("technology");
    reveal_strlit("technologies");
    reveal_strlit("stack");
    reveal_strlit("core stack");
    assert(ascii_lowercase("Name"@) =~= "name"@);
    assert(ascii_lowercase("Location"@) =~= "location"@);
    assert(ascii_lowercase("Base location"@) =~= "base location"@);
    assert(ascii_lowercase("Organization"@) =~= "organization"@);
    assert(ascii_lowercase("Company"@) =~= "company"@);
    assert(ascii_lowercase("Employer"@) =~= "employer"@);
    assert(ascii_lowercase("Technology"@) =~= "technology"@);
    assert(ascii_lowercase("Technologies"@) =~= "technologies"@);
    assert(ascii_lowercase("Stack"@) =~= "stack"@);
    assert(ascii_lowercase("Core stack"@) =~= "core stack"@);
}

/// A line that begins with `Project ` and has a colon names a field that begins
/// with a `p`, so none of those that are known.
proof fn lemma_project_field(clean: Seq<char>)
    requires
        after_prefix(clean, "Project "@) is Some,
        field_name(clean) is Some,
    ensures
        field_name(clean)->0.len() > 0 && field_name(clean)->0[0] == 'p',
{
    reveal_strlit("Project ");
    reveal_strlit(":");
    law_prefix(clean, "Project "@, after_prefix(clean, "Project "@)->0);
    law_split(clean, ":"@);
    let (head, tail) = split_at_first(clean, ":"@)->0;
    assert(clean[0] == 'P');
    assert(clean[head.len() as int] == ':') by {
        assert((head + ":"@ + tail)[head.len() as int] == ':');
    }
    assert(head.len() > 0);
    assert(head[0] == 'P') by {
        assert((head + ":"@ + tail)[0] == head[0]);
    }
    law_trim(head, CharClass::White);
    let (from, to) = choose|from: int, to: int|
        0 <= from <= to <= head.len() && trimmed(head) == #[trigger] head.subrange(from, to) && (
        forall|j: int|
            0 <= j < from || to <= j < head.len() ==> CharClass::White.holds(#[trigger] head[j]))
            && (from < to ==> !CharClass::White.holds(head[from]) && !CharClass::White.holds(
            head[to - 1],
        ));
    if from > 0 || to == 0 {
        assert(CharClass::White.holds(head[0]));
    }
    assert(trimmed(head)[0] == 'P');
}

/// Whether every mention has a type and a role.
pub open spec fn all_are(mentions: Seq<Mention>, entity_type: Seq<char>, role: Seq<char>) -> bool {
    forall|i: int|
        0 <= i < mentions.len() ==> (#[trigger] mentions[i]).entity_type == entity_type
            && mentions[i].role == Some(role)
}

proof fn lemma_items_are(
    config: EntityExtractionConfig,
    items: Seq<Seq<char>>,
    entity_type: Seq<char>,
    role: Seq<char>,
    skip_near: bool,
)
    ensures
        all_are(
            item_mentions(config, items, entity_type, role, skip_near),
            stable_type(entity_type),
            role,
        ),
    decreases items.len(),
{
    if items.len() > 0 {
        let head = items.drop_last();
        lemma_items_are(config, head, entity_type, role, skip_near);
        let rest = item_mentions(config, head, entity_type, role, skip_near);
        let all = item_mentions(config, items, entity_type, role, skip_near);
        assert forall|i: int| 0 <= i < all.len() implies (#[trigger] all[i]).entity_type
            == stable_type(entity_type) && all[i].role == Some(role) by {
            if i < rest.len() {
                assert(all[i] == rest[i]);
            }
        }
    }
}

/// The mentions of a line whose field is one of those that list entities.
proof fn lemma_line_lists(config: EntityExtractionConfig, line: Seq<char>, field: Seq<char>)
    requires
        field_name(trimmed(without_context(line))) == Some(field),
    ensures
        field == "location"@ ==> line_mentions(config, line) == list_mentions(
            config,
            trimmed(without_context(line)),
            "Location"@,
            "place"@,
            "location"@,
            true,
        ),
        field == "base location"@ ==> line_mentions(config, line) == list_mentions(
            config,
            trimmed(without_context(line)),
            "Base location"@,
            "place"@,
            "location"@,
            true,
        ),
        field == "organization"@ ==> line_mentions(config, line) == list_mentions(
            config,
            trimmed(without_context(line)),
            "Organization"@,
            "organization"@,
            "affiliation"@,
            false,
        ),
        field == "company"@ ==> line_mentions(config, line) == list_mentions(
            config,
            trimmed(without_context(line)),
            "Company"@,
            "organization"@,
            "affiliation"@,
            false,
        ),
        field == "employer"@ ==> line_mentions(config, line) == list_mentions(
            config,
            trimmed(without_context(line)),
            "Employer"@,
            "organization"@,
            "affiliation"@,
            false,
        ),
        field == "technology"@ ==> line_mentions(config, line) == list_mentions(
            config,
            trimmed(without_context(line)),
            "Technology"@,
            "technology"@,
            "tool"@,
            false,
        ),
        field == "technologies"@ ==> line_mentions(config, line) == list_mentions(
            config,
            trimmed(without_context(line)),
            "Technologies"@,
            "technology"@,
            "tool"@,
            false,
        ),
        field == "stack"@ ==> line_mentions(config, line) == list_mentions(
            config,
            trimmed(without_context(line)),
            "Stack"@,
            "technology"@,
            "tool"@,
            false,
        ),
        field == "core stack"@ ==> line_mentions(config, line) == list_mentions(
            config,
            trimmed(without_context(line)),
            "Core stack"@,
            "technology"@,
            "tool"@,
            false,
        ),
        field == "name"@ ==> line_mentions(config, line) == name_mentions(
            config,
            trimmed(without_context(line)),
        ),
        field != "name"@ && field != "location"@ && field != "base location"@ && field
            != "organization"@ && field != "company"@ && field != "employer"@ && field
            != "technology"@ && field != "technologies"@ && field != "stack"@ && field
            != "core stack"@ ==> line_mentions(config, line) == project_mentions(
            config,
            trimmed(without_context(line)),
        ),
{
    let clean = trimmed(without_context(line));
    lemma_fields();
    if after_prefix(clean, "Project "@) is Some {
        lemma_project_field(clean);
    }
    let place = "place"@;
    let loc = "location"@;
    let org = "organization"@;
    let aff = "affiliation"@;
    let tech = "technology"@;
    let tool = "tool"@;
    let all = line_mentions(config, line);
    let m0 = name_mentions(config, clean);
    let m1 = project_mentions(config, clean);
    let m2 = list_mentions(config, clean, "Location"@, place, loc, true);
    let m3 = list_mentions(config, clean, "Base location"@, place, loc, true);
    let m4 = list_mentions(config, clean, "Organization"@, org, aff, false);
    let m5 = list_mentions(config, clean, "Company"@, org, aff, false);
    let m6 = list_mentions(config, clean, "Employer"@, org, aff, false);
    let m7 = list_mentions(config, clean, "Technology"@, tech, tool, false);
    let m8 = list_mentions(config, clean, "Technologies"@, tech, tool, false);
    let m9 = list_mentions(config, clean, "Stack"@, tech, tool, false);
    let m10 = list_mentions(config, clean, "Core stack"@, tech, tool, false);
    assert(all == m0 + m1 + m2 + m3 + m4 + m5 + m6 + m7 + m8 + m9 + m10);
    assert(field != "name"@ ==> m0.len() == 0);
    assert(field != "location"@ ==> m2.len() == 0);
    assert(field != "base location"@ ==> m3.len() == 0);
    assert(field != "organization"@ ==> m4.len() == 0);
    assert(field != "company"@ ==> m5.len() == 0);
    assert(field != "employer"@ ==> m6.len() == 0);
    assert(field != "technology"@ ==> m7.len() == 0);
    assert(field != "technologies"@ ==> m8.len() == 0);
    assert(field != "stack"@ ==> m9.len() == 0);
    assert(field != "core stack"@ ==> m10.len() == 0);
    if field == "name"@ {
        assert(m1.len() == 0);
        assert(all =~= m0);
    } else if field == "location"@ {
        assert(m1.len() == 0);
        assert(all =~= m2);
    } else if field == "base location"@ {
        assert(m1.len() == 0);
        assert(all =~= m3);
    } else if field == "organization"@ {
        assert(m1.len() == 0);
        assert(all =~= m4);
    } else if field == "company"@ {
        assert(m1.len() == 0);
        assert(all =~= m5);
    } else if field == "employer"@ {
        assert(m1.len() == 0);
        assert(all =~= m6);
    } else if field == "technology"@ {
        assert(m1.len() == 0);
        assert(all =~= m7);
    } else if field == "technologies"@ {
        assert(m1.len() == 0);
        assert(all =~= m8);
    } else if field == "stack"@ {
        assert(m1.len() == 0);
        assert(all =~= m9);
    } else if field == "core stack"@ {
        assert(m1.len() == 0);
        assert(all =~= m10);
    } else {
        assert(all =~= m1);
    }
}

/// What a line mentions depends on the name of its field. Organization, Company and
/// Employer give organizations, as affiliations; Location and Base location give
/// places, as locations; Technology, Technologies, Stack and Core stack give
/// technologies, as tools; Name gives a person, as the subject. A line with another
/// field, or with none, mentions at most a project, as the subject.
pub proof fn law_field_types(config: EntityExtractionConfig, line: Seq<char>)
    ensures
        ({
            let field = field_name(trimmed(without_context(line)));
            let all = line_mentions(config, line);
            if field == Some("organization"@) || field == Some("company"@) || field == Some(
                "employer"@,
            ) {
                all_are(all, "organization"@, "affiliation"@)
            } else if field == Some("location"@) || field == Some("base location"@) {
                all_are(all, "place"@, "location"@)
            } else if field == Some("technology"@) || field == Some("technologies"@) || field
                == Some("stack"@) || field == Some("core stack"@) {
                all_are(all, "technology"@, "tool"@)
            } else if field == Some("name"@) {
                all_are(all, "person"@, "subject"@)
            } else {
                all_are(all, "project"@, "subject"@) && (all.len() > 0 ==> after_prefix(
                    trimmed(without_context(line)),
                    "Project "@,
                ) is Some)
            }
        }),
{
    let clean = trimmed(without_context(line));
    let all = line_mentions(config, line);
    lemma_types();
    lemma_fields();
    match field_name(clean) {
        Some(field) => {
            lemma_line_lists(config, line, field);
            match split_at_first(clean, ":"@) {
                Some((_, tail)) => {
                    let items = structured_items(trimmed(tail));
                    lemma_items_are(config, items, "organization"@, "affiliation"@, false);
                    lemma_items_are(config, items, "place"@, "location"@, true);
                    lemma_items_are(config, items, "technology"@, "tool"@, false);
                },
                None => {},
            }
        },
        None => {
            assert(all =~= project_mentions(config, clean));
        },
    }
}

/// The items of a list field each give the mention of their name, in their order,
/// with the confidence of fields and themselves as the evidence. Only a place that
/// is described by what it lies near to gives none.
pub proof fn law_items_mentioned(
    config: EntityExtractionConfig,
    items: Seq<Seq<char>>,
    entity_type: Seq<char>,
    role: Seq<char>,
    skip_near: bool,
    k: int,
)
    requires
        0 <= k < items.len(),
        !(skip_near && only_near(items[k])),
        canonical_name(items[k]) is Some,
    ensures
        exists|i: int|
            0 <= i < item_mentions(config, items, entity_type, role, skip_near).len() && {
                let m = #[trigger] item_mentions(config, items, entity_type, role, skip_near)[i];
                &&& m.canonical == canonical_name(items[k])->0
                &&& m.confidence == config.structured_confidence
                &&& m.evidence == Some(items[k])
                &&& m.role == Some(role)
                &&& m.entity_type == stable_type(entity_type)
            },
    decreases items.len(),
{
    let head = items.drop_last();
    let rest = item_mentions(config, head, entity_type, role, skip_near);
    let all = item_mentions(config, items, entity_type, role, skip_near);
    if k < head.len() {
        law_items_mentioned(config, head, entity_type, role, skip_near, k);
        let i = choose|i: int|
            0 <= i < rest.len() && {
                let m = #[trigger] rest[i];
                &&& m.canonical == canonical_name(head[k])->0
                &&& m.confidence == config.structured_confidence
                &&& m.evidence == Some(head[k])
                &&& m.role == Some(role)
                &&& m.entity_type == stable_type(entity_type)
            };
        assert(all[i] == rest[i]);
    } else {
        assert(all[rest.len() as int].canonical == canonical_name(items[k])->0);
    }
}

/// A list field of a line gives one mention for each of its items that has a name,
/// whatever the case of the field's name.
pub proof fn law_field_lists(
    config: EntityExtractionConfig,
    line: Seq<char>,
    head: Seq<char>,
    tail: Seq<char>,
    k: int,
)
    requires
        trimmed(without_context(line)) == head + seq![':'] + tail,
        !head.contains(':'),
        ({
            let field = ascii_lowercase(trimmed(head));
            ||| field == "organization"@
            ||| field == "company"@
            ||| field == "employer"@
            ||| field == "technology"@
            ||| field == "technologies"@
            ||| field == "stack"@
            ||| field == "core stack"@
            ||| (field == "location"@ || field == "base location"@) && !only_near(
                structured_items(trimmed(tail))[k],
            )
        }),
        0 <= k < structured_items(trimmed(tail)).len(),
        canonical_name(structured_items(trimmed(tail))[k]) is Some,
    ensures
        exists|i: int|
            0 <= i < line_mentions(config, line).len() && (#[trigger] line_mentions(
                config,
                line,
            )[i]).canonical == canonical_name(structured_items(trimmed(tail))[k])->0
                && line_mentions(config, line)[i].confidence == config.structured_confidence
                && line_mentions(config, line)[i].evidence == Some(
                structured_items(trimmed(tail))[k],
            ),
{
    reveal_strlit(":");
    let clean = trimmed(without_context(line));
    let field = ascii_lowercase(trimmed(head));
    assert(":"@ =~= seq![':']);
    lemma_split_here(head, ':', ":"@, tail);
    lemma_fields();
    lemma_line_lists(config, line, field);
    let items = structured_items(trimmed(tail));
    if field == "location"@ || field == "base location"@ {
        law_items_mentioned(config, items, "place"@, "location"@, true, k);
    } else if field == "technology"@ || field == "technologies"@ || field == "stack"@ || field
        == "core stack"@ {
        law_items_mentioned(config, items, "technology"@, "tool"@, false, k);
    } else {
        law_items_mentioned(config, items, "organization"@, "affiliation"@, false, k);
    }
}

/// The items of a list are its parts without what does not belong to them, in their
/// order; none is empty, and none that is left with something is dropped.
pub proof fn law_list_items(parts: Seq<Seq<char>>) -> (places: Seq<int>)
    ensures
        list_items(parts).len() == places.len(),
        forall|k: int|
            0 <= k < parts.len() ==> (#[trigger] places.contains(k) <==> list_item(parts[k]).len()
                > 0),
        forall|i: int, j: int|
            0 <= i < j < places.len() ==> #[trigger] places[i] < #[trigger] places[j],
        forall|i: int|
            0 <= i < places.len() ==> 0 <= #[trigger] places[i] < parts.len() && list_items(
                parts,
            )[i] == list_item(parts[places[i]]),
    decreases parts.len(),
{
    if parts.len() == 0 {
        Seq::empty()
    } else {
        let head = parts.drop_last();
        let n = parts.len() - 1;
        let before = law_list_items(head);
        assert forall|i: int| 0 <= i < before.len() implies 0 <= #[trigger] before[i] < parts.len()
            && list_items(parts)[i] == list_item(parts[before[i]]) by {
            assert(head[before[i]] == parts[before[i]]);
        }
        assert forall|k: int| 0 <= k < n implies (#[trigger] before.contains(k) <==> list_item(
            parts[k],
        ).len() > 0) by {
            assert(head[k] == parts[k]);
        }
        crate::run_laws::lemma_places_grow(before, n);
        if list_item(parts[n]).len() > 0 {
            before.push(n)
        } else {
            before
        }
    }
}

/// A tag `entity:` gives the mention of its name: as mentioned, with the confidence
/// of tags, and of the type that the first `entity_type:` tag gives, else a concept.
pub proof fn law_tags_mention(
    config: EntityExtractionConfig,
    tags: Seq<Seq<char>>,
    name: Seq<char>,
    k: int,
)
    requires
        0 <= k < tags.len(),
        tags[k] == "entity:"@ + name,
        canonical_name(name) is Some,
    ensures
        exists|i: int|
            0 <= i < tag_mentions(config, type_for_tags(tags), tags).len() && {
                let m = #[trigger] tag_mentions(config, type_for_tags(tags), tags)[i];
                &&& m.canonical == canonical_name(name)->0
                &&& m.confidence == config.tag_confidence
                &&& m.role == Some("mentioned"@)
                &&& m.evidence == Some(trimmed(name))
                &&& m.entity_type == stable_type(type_for_tags(tags))
            },
{
    lemma_tag_mention(config, type_for_tags(tags), tags, name, k);
}

proof fn lemma_tag_mention(
    config: EntityExtractionConfig,
    entity_type: Seq<char>,
    tags: Seq<Seq<char>>,
    name: Seq<char>,
    k: int,
)
    requires
        0 <= k < tags.len(),
        tags[k] == "entity:"@ + name,
        canonical_name(name) is Some,
    ensures
        exists|i: int|
            0 <= i < tag_mentions(config, entity_type, tags).len() && {
                let m = #[trigger] tag_mentions(config, entity_type, tags)[i];
                &&& m.canonical == canonical_name(name)->0
                &&& m.confidence == config.tag_confidence
                &&& m.role == Some("mentioned"@)
                &&& m.evidence == Some(trimmed(name))
                &&& m.entity_type == stable_type(entity_type)
            },
    decreases tags.len(),
{
    let head = tags.drop_last();
    let rest = tag_mentions(config, entity_type, head);
    let all = tag_mentions(config, entity_type, tags);
    law_prefix(tags[k], "entity:"@, name);
    if k < head.len() {
        lemma_tag_mention(config, entity_type, head, name, k);
        let i = choose|i: int|
            0 <= i < rest.len() && {
                let m = #[trigger] rest[i];
                &&& m.canonical == canonical_name(name)->0
                &&& m.confidence == config.tag_confidence
                &&& m.role == Some("mentioned"@)
                &&& m.evidence == Some(trimmed(name))
                &&& m.entity_type == stable_type(entity_type)
            };
        assert(all[i] == rest[i]);
    } else {
        assert(all[rest.len() as int].canonical == canonical_name(name)->0);
    }
}

/// The type that tags give is that of the first tag `entity_type:`, in its stable
/// form, and a concept where there is none.
pub proof fn law_tag_type(tags: Seq<Seq<char>>, raw: Seq<char>, k: int)
    requires
        forall|i: int|
            0 <= i < tags.len() && i < k ==> after_prefix(
                #[trigger] tags[i],
                "entity_type:"@,
            ) is None,
    ensures
        0 <= k < tags.len() && tags[k] == "entity_type:"@ + raw ==> type_for_tags(tags)
            == stable_type(raw),
        k >= tags.len() ==> type_for_tags(tags) == "concept"@,
    decreases tags.len(),
{
    if tags.len() > 0 {
        if 0 <= k < tags.len() {
            law_prefix(tags[k], "entity_type:"@, raw);
        }
        if k > 0 {
            let t = tags.drop_first();
            assert(after_prefix(tags[0], "entity_type:"@) is None);
            assert forall|i: int| 0 <= i < t.len() && i < k - 1 implies after_prefix(
                #[trigger] t[i],
                "entity_type:"@,
            ) is None by {
                assert(t[i] == tags[i + 1]);
            }
            law_tag_type(t, raw, k - 1);
        }
    }
}

} // verus!
