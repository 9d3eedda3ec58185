//! Deterministic linking of the entities that a memory names explicitly: in
//! `entity:` tags and in structured fields such as `Name: Pratap`.
use crate::float::Single;
use crate::keyed::{find_key, key_index, law_key_index, Keyed};
use crate::memory::MemoryNode;
use crate::order::{sort_ranked, stable_sorted, views_of, Ranked};
use crate::text::{
    after_prefix, ascii_lower, ascii_lowercase, ascii_upper, byte_count, byte_len, chars_of,
    copy_text, eq_ignore_ascii_case, fields, has_prefix, has_text, is_ascii_letter, is_ascii_upper,
    join, joined, lemma_views_push, lines, lower_form, opt_str_view, opt_view, replace_all,
    replaced, same_but_case, split_at_first, split_fields, split_lines, split_once, split_words,
    starts_with, strip_prefix, text_before, text_from, text_lt, trim, trim_class, trim_end_class,
    trim_prefixes, trimmed, trimmed_both, trimmed_end, trimmed_start, upper_char, views,
    white_space, without_prefixes, words, CharClass,
};
use vstd::prelude::*;
use vstd::utf8::is_ascii_chars;

verus! {

/// Tunable settings for deterministic entity surface linking.
#[derive(Clone, Copy, Debug)]
pub struct EntityExtractionConfig {
    /// Whether write-time surface linking is enabled.
    pub enabled: bool,
    /// Whether entity-linked memories are an additive recall signal.
    pub recall_enabled: bool,
    /// Maximum explicit entities linked for a single memory.
    pub max_entities_per_memory: usize,
    /// Maximum aliases written for a single explicit entity.
    pub max_aliases_per_entity: usize,
    /// Minimum explicit field value length accepted, in bytes.
    pub min_phrase_chars: usize,
    /// Maximum explicit field value length accepted, in bytes.
    pub max_phrase_chars: usize,
    /// Maximum words used when resolving query text against existing aliases.
    pub max_alias_words: usize,
    /// Confidence for entities explicitly tagged with `entity:`.
    pub tag_confidence: Single,
    /// Confidence for structured fields such as `Name: Pratap`.
    pub structured_confidence: Single,
    /// Minimum confidence required before writing an entity link.
    pub min_confidence: Single,
    /// Score added during recall for each linked entity match.
    pub recall_boost: Single,
    /// Maximum linked memories considered per resolved entity during recall.
    pub recall_fetch_limit: usize,
}

impl EntityExtractionConfig {
    /// The configuration that counts where none is given.
    pub open spec fn standard() -> EntityExtractionConfig {
        EntityExtractionConfig {
            enabled: true,
            recall_enabled: true,
            max_entities_per_memory: 16,
            max_aliases_per_entity: 8,
            min_phrase_chars: 2,
            max_phrase_chars: 80,
            max_alias_words: 5,
            tag_confidence: Single { bits: 0x3f7a_e148 },
            structured_confidence: Single { bits: 0x3f73_3333 },
            min_confidence: Single { bits: 0x3f0c_cccd },
            recall_boost: Single { bits: 0x3f80_0000 },
            recall_fetch_limit: 32,
        }
    }
}

impl Default for EntityExtractionConfig {
    /// The confidences are 0.98, 0.95 and 0.55, the boost is 1.
    fn default() -> (res: Self)
        ensures
            res == EntityExtractionConfig::standard(),
    {
        EntityExtractionConfig {
            enabled: true,
            recall_enabled: true,
            max_entities_per_memory: 16,
            max_aliases_per_entity: 8,
            min_phrase_chars: 2,
            max_phrase_chars: 80,
            max_alias_words: 5,
            tag_confidence: Single { bits: 0x3f7a_e148 },
            structured_confidence: Single { bits: 0x3f73_3333 },
            min_confidence: Single { bits: 0x3f0c_cccd },
            recall_boost: Single { bits: 0x3f80_0000 },
            recall_fetch_limit: 32,
        }
    }
}

/// An explicit entity mention found in structured input or tags.
#[derive(Debug)]
pub struct ExtractedEntity {
    /// Canonical display name.
    pub canonical: String,
    /// Stable type name, for example `person`, `project`, or `technology`.
    pub entity_type: String,
    /// Alternate spellings or normalized lookup keys.
    pub aliases: Vec<String>,
    /// Mention role within the source memory.
    pub role: Option<String>,
    /// Linker confidence in this explicit mention.
    pub confidence: Single,
    /// Small evidence span from the source text or tag.
    pub evidence: Option<String>,
}

/// The mathematical form of an extracted entity.
#[verifier::ext_equal]
pub struct Mention {
    pub canonical: Seq<char>,
    pub entity_type: Seq<char>,
    pub aliases: Seq<Seq<char>>,
    pub role: Option<Seq<char>>,
    pub confidence: Single,
    pub evidence: Option<Seq<char>>,
}

impl View for ExtractedEntity {
    type V = Mention;

    open spec fn view(&self) -> Mention {
        Mention {
            canonical: self.canonical@,
            entity_type: self.entity_type@,
            aliases: views(self.aliases@),
            role: opt_view(self.role),
            confidence: self.confidence,
            evidence: opt_view(self.evidence),
        }
    }
}

impl Ranked for ExtractedEntity {
    /// The more confident mention comes first; between equals the canonical
    /// name decides.
    open spec fn ranks_before(a: Mention, b: Mention) -> bool {
        b.confidence.less(a.confidence) || (!a.confidence.less(b.confidence) && text_before(
            a.canonical,
            b.canonical,
        ))
    }

    fn is_before(&self, other: &Self) -> (res: bool) {
        other.confidence.lt(self.confidence) || (!self.confidence.lt(other.confidence) && text_lt(
            self.canonical.as_str(),
            other.canonical.as_str(),
        ))
    }
}

// ---------------------------------------------------------------------------
// Phrases
// ---------------------------------------------------------------------------
/// The value of `field` in a line of the form `field: value`.
pub open spec fn value_of_field(line: Seq<char>, field: Seq<char>) -> Option<Seq<char>> {
    match split_at_first(line, ":"@) {
        Some((head, value)) => if ascii_lowercase(trimmed(head)) == ascii_lowercase(field) {
            Some(trimmed(value))
        } else {
            None
        },
        None => None,
    }
}

/// The value of a field, if the line names it; ASCII case does not matter.
pub fn field_value<'a>(line: &'a str, field: &str) -> (res: Option<&'a str>)
    ensures
        opt_str_view(res) == value_of_field(line@, field@),
{
    match split_once(line, ":") {
        Some((head, value)) => {
            if eq_ignore_ascii_case(trim(head), field) {
                Some(trim(value))
            } else {
                None
            }
        },
        None => None,
    }
}

/// What a text holds before a pattern, all of it where the pattern is missing.
pub open spec fn up_to(s: Seq<char>, pat: Seq<char>) -> Seq<char> {
    match split_at_first(s, pat) {
        Some((head, _)) => head,
        None => s,
    }
}

/// The first sentence of a field value.
pub open spec fn first_value(value: Seq<char>) -> Seq<char> {
    trimmed(trimmed_end(up_to(value, ". "@), CharClass::Stop))
}

/// The first sentence of a field value, without its full stop.
pub fn first_structured_value<'a>(value: &'a str) -> (res: &'a str)
    ensures
        res@ == first_value(value@),
{
    let head = match split_once(value, ". ") {
        Some((head, _)) => head,
        None => value,
    };
    trim(trim_end_class(head, CharClass::Stop))
}

/// A list in which the joining words have become commas.
pub open spec fn comma_list(value: Seq<char>) -> Seq<char> {
    replaced(replaced(replaced(value, " with "@, ","@), " and "@, ","@), " plus "@, ","@)
}

/// One part of a list without leading joining words, a full stop or white
/// space around it.
pub open spec fn list_item(part: Seq<char>) -> Seq<char> {
    trimmed(
        trimmed_end(
            without_prefixes(without_prefixes(trimmed(part), "and "@), "with "@),
            CharClass::Stop,
        ),
    )
}

/// The parts of a list that are not empty.
pub open spec fn list_items(parts: Seq<Seq<char>>) -> Seq<Seq<char>>
    decreases parts.len(),
{
    if parts.len() == 0 {
        Seq::empty()
    } else {
        let rest = list_items(parts.drop_last());
        let item = list_item(parts.last());
        if item.len() == 0 {
            rest
        } else {
            rest.push(item)
        }
    }
}

/// The items of a field value that lists several.
pub open spec fn structured_items(value: Seq<char>) -> Seq<Seq<char>> {
    list_items(fields(comma_list(value), ','))
}

/// Splits a field value into the items that it lists.
pub fn split_structured_list(value: &str) -> (res: Vec<String>)
    ensures
        views(res@) == structured_items(value@),
{
    proof {
        reveal_strlit(" with ");
        reveal_strlit(" and ");
        reveal_strlit(" plus ");
    }
    let a = replace_all(value, " with ", ",");
    let b = replace_all(a.as_str(), " and ", ",");
    let normalized = replace_all(b.as_str(), " plus ", ",");
    let parts = split_fields(normalized.as_str(), ',');
    let ghost all = views(parts@);
    let mut out: Vec<String> = Vec::new();
    for i in 0..parts.len()
        invariant
            all == views(parts@),
            views(out@) == list_items(all.take(i as int)),
    {
        let part = trim_prefixes(trim_prefixes(trim(parts[i].as_str()), "and "), "with ");
        let cleaned = trim(trim_end_class(part, CharClass::Stop));
        proof {
            assert(all.take(i + 1).drop_last() =~= all.take(i as int));
            assert(cleaned@ == list_item(all[i as int]));
        }
        if !cleaned.is_empty() {
            let item = copy_text(cleaned);
            proof {
                lemma_views_push(out@, item);
            }
            out.push(item);
        }
    }
    proof {
        assert(all.take(all.len() as int) =~= all);
    }
    out
}

/// What precedes the first of the words that end a project name.
pub open spec fn name_part(raw: Seq<char>) -> Seq<char> {
    match split_at_first(raw, " is "@) {
        Some((head, _)) => head,
        None => match split_at_first(raw, " uses "@) {
            Some((head, _)) => head,
            None => up_to(raw, " includes "@),
        },
    }
}

/// The part of a phrase before ` is `, else ` uses `, else ` includes `.
pub fn take_until_boundary<'a>(raw: &'a str) -> (res: &'a str)
    ensures
        res@ == name_part(raw@),
{
    match split_once(raw, " is ") {
        Some((head, _)) => head,
        None => match split_once(raw, " uses ") {
            Some((head, _)) => head,
            None => match split_once(raw, " includes ") {
                Some((head, _)) => head,
                None => raw,
            },
        },
    }
}

/// A line without a leading `[section]`.
pub open spec fn without_section(line: Seq<char>) -> Seq<char> {
    let whole = trimmed(line);
    match after_prefix(whole, "["@) {
        Some(rest) => match split_at_first(rest, "]"@) {
            Some((_, after)) => trimmed(after),
            None => whole,
        },
        None => whole,
    }
}

/// A line without a leading `[section]` and without white space around it.
pub fn trim_section_prefix<'a>(line: &'a str) -> (res: &'a str)
    ensures
        res@ == without_section(line@),
{
    let whole = trim(line);
    if let Some(rest) = strip_prefix(whole, "[") {
        if let Some((_, after)) = split_once(rest, "]") {
            return trim(after);
        }
    }
    whole
}

/// A line without a leading section and a leading speaker.
pub open spec fn without_context(line: Seq<char>) -> Seq<char> {
    let whole = without_section(line);
    match after_prefix(whole, "User:"@) {
        Some(rest) => trimmed(rest),
        None => match after_prefix(whole, "Assistant:"@) {
            Some(rest) => trimmed(rest),
            None => match after_prefix(whole, "System:"@) {
                Some(rest) => trimmed(rest),
                None => whole,
            },
        },
    }
}

/// A line without a leading `[section]` and a leading speaker.
pub fn trim_context_prefix<'a>(line: &'a str) -> (res: &'a str)
    ensures
        res@ == without_context(line@),
{
    let whole = trim_section_prefix(line);
    match strip_prefix(whole, "User:") {
        Some(rest) => trim(rest),
        None => match strip_prefix(whole, "Assistant:") {
            Some(rest) => trim(rest),
            None => match strip_prefix(whole, "System:") {
                Some(rest) => trim(rest),
                None => whole,
            },
        },
    }
}

pub open spec fn has_letter(s: Seq<char>) -> bool {
    exists|i: int| 0 <= i < s.len() && is_ascii_letter(#[trigger] s[i])
}

pub open spec fn has_upper(s: Seq<char>) -> bool {
    exists|i: int| 0 <= i < s.len() && is_ascii_upper(#[trigger] s[i])
}

/// A word with its first letter in upper case.
pub open spec fn capitalized(word: Seq<char>) -> Seq<char> {
    if word.len() == 0 {
        word
    } else {
        word.update(0, ascii_upper(word[0]))
    }
}

/// A phrase without what surrounds it, its words one space apart.
pub open spec fn plain_phrase(raw: Seq<char>) -> Seq<char> {
    joined(
        words(trimmed_end(trimmed_both(trimmed(raw), CharClass::Wrapping), CharClass::Stop)),
        " "@,
    )
}

/// A phrase without a leading label.
pub open spec fn unlabelled(phrase: Seq<char>) -> Seq<char> {
    match after_prefix(phrase, "Project "@) {
        Some(rest) => rest,
        None => match after_prefix(phrase, "Name "@) {
            Some(rest) => rest,
            None => phrase,
        },
    }
}

/// A phrase with each word capitalized.
pub open spec fn title_case(phrase: Seq<char>) -> Seq<char> {
    joined(words(phrase).map_values(|w: Seq<char>| capitalized(w)), " "@)
}

/// The display name that a phrase stands for. There is none where the phrase
/// has no ASCII letter. A phrase with an upper-case letter is kept as it is
/// spelled.
pub open spec fn canonical_name(raw: Seq<char>) -> Option<Seq<char>> {
    let cleaned = unlabelled(plain_phrase(raw));
    if !has_letter(cleaned) {
        None
    } else if has_upper(cleaned) {
        Some(cleaned)
    } else {
        Some(title_case(cleaned))
    }
}

/// A copy of a word with its first letter in upper case.
fn capitalize(word: &str) -> (res: String)
    ensures
        res@ == capitalized(word@),
{
    let chars = chars_of(word);
    let mut out = String::new();
    if chars.len() > 0 {
        out.push(upper_char(chars[0]));
        let rest = text_from(&chars, 1, chars.len());
        out.append(rest.as_str());
    }
    assert(out@ =~= capitalized(word@));
    out
}

/// The display name of a phrase, if it has one.
pub fn canonicalize_phrase(raw: &str) -> (res: Option<String>)
    ensures
        opt_view(res) == canonical_name(raw@),
{
    let core = trim_end_class(trim_class(trim(raw), CharClass::Wrapping), CharClass::Stop);
    let phrase = join(&split_words(core), " ");
    let rest = match strip_prefix(phrase.as_str(), "Project ") {
        Some(rest) => rest,
        None => match strip_prefix(phrase.as_str(), "Name ") {
            Some(rest) => rest,
            None => phrase.as_str(),
        },
    };
    let cleaned = copy_text(rest);
    let chars = chars_of(cleaned.as_str());
    let mut letter: bool = false;
    let mut upper: bool = false;
    for i in 0..chars.len()
        invariant
            letter == has_letter(chars@.take(i as int)),
            upper == has_upper(chars@.take(i as int)),
    {
        let c = chars[i];
        let is_upper = c >= 'A' && c <= 'Z';
        let is_letter = is_upper || (c >= 'a' && c <= 'z');
        proof {
            let now = chars@.take(i + 1);
            let before = chars@.take(i as int);
            assert(now[i as int] == c);
            assert(forall|j: int| 0 <= j < i ==> now[j] == before[j]);
            assert(is_letter ==> has_letter(now));
            assert(is_upper ==> has_upper(now));
            if has_letter(before) {
                let j = choose|j: int| 0 <= j < before.len() && is_ascii_letter(before[j]);
                assert(is_ascii_letter(now[j]));
            }
            if has_upper(before) {
                let j = choose|j: int| 0 <= j < before.len() && is_ascii_upper(before[j]);
                assert(is_ascii_upper(now[j]));
            }
            if has_letter(now) && !is_letter {
                let j = choose|j: int| 0 <= j < now.len() && is_ascii_letter(now[j]);
                assert(is_ascii_letter(before[j]));
            }
            if has_upper(now) && !is_upper {
                let j = choose|j: int| 0 <= j < now.len() && is_ascii_upper(now[j]);
                assert(is_ascii_upper(before[j]));
            }
        }
        letter = letter || is_letter;
        upper = upper || is_upper;
    }
    proof {
        assert(chars@.take(chars.len() as int) =~= chars@);
    }
    if !letter {
        return None;
    }
    if upper {
        return Some(cleaned);
    }
    let parts = split_words(cleaned.as_str());
    let ghost all = views(parts@);
    let mut out: Vec<String> = Vec::new();
    for i in 0..parts.len()
        invariant
            all == views(parts@),
            views(out@) == all.take(i as int).map_values(|w: Seq<char>| capitalized(w)),
    {
        let word = capitalize(parts[i].as_str());
        proof {
            lemma_views_push(out@, word);
        }
        out.push(word);
        assert(views(out@) =~= all.take(i + 1).map_values(|w: Seq<char>| capitalized(w)));
    }
    proof {
        assert(all.take(all.len() as int) =~= all);
    }
    Some(join(&out, " "))
}

/// A list of aliases with one more, where there is room and it is new.
pub open spec fn with_alias(list: Seq<Seq<char>>, alias: Seq<char>, max: int) -> Seq<Seq<char>> {
    if list.len() < max && alias.len() > 0 && !list.contains(alias) {
        list.push(alias)
    } else {
        list
    }
}

/// The spellings under which an entity is looked up: as written, canonical and
/// in lower case.
pub open spec fn alias_list(raw: Seq<char>, canonical: Seq<char>, max: int) -> Seq<Seq<char>> {
    let written = trimmed_end(trimmed(raw), CharClass::Stop);
    with_alias(
        with_alias(with_alias(Seq::empty(), written, max), canonical, max),
        lower_form(canonical),
        max,
    )
}

fn push_alias(list: &mut Vec<String>, alias: String, max: usize)
    ensures
        views(final(list)@) == with_alias(views(old(list)@), alias@, max as int),
{
    if list.len() < max && !alias.as_str().is_empty() && !has_text(list, alias.as_str()) {
        proof {
            lemma_views_push(list@, alias);
        }
        list.push(alias);
    }
}

/// The aliases of an entity: no duplicate, none empty, at most `max_aliases`.
pub fn aliases_for(raw: &str, canonical: &str, max_aliases: usize) -> (res: Vec<String>)
    ensures
        views(res@) == alias_list(raw@, canonical@, max_aliases as int),
{
    let mut aliases: Vec<String> = Vec::new();
    assert(views(aliases@) =~= Seq::empty());
    push_alias(&mut aliases, copy_text(trim_end_class(trim(raw), CharClass::Stop)), max_aliases);
    push_alias(&mut aliases, copy_text(canonical), max_aliases);
    push_alias(&mut aliases, canonical.to_lowercase(), max_aliases);
    aliases
}

/// A type name in lower case, with `_` for each space.
pub open spec fn stable_type(raw: Seq<char>) -> Seq<char> {
    replaced(lower_form(trimmed(raw)), " "@, "_"@)
}

/// The stable form of a type name.
pub fn normalize_type(raw: &str) -> (res: String)
    ensures
        res@ == stable_type(raw@),
{
    proof {
        reveal_strlit(" ");
    }
    replace_all(trim(raw).to_lowercase().as_str(), " ", "_")
}

/// A text with `_` for each space.
spec fn underscored(s: Seq<char>) -> Seq<char> {
    s.map_values(
        |c: char|
            if c == ' ' {
                '_'
            } else {
                c
            },
    )
}

proof fn lemma_underscored(s: Seq<char>)
    ensures
        replaced(s, " "@, "_"@) == underscored(s),
    decreases s.len(),
{
    reveal_strlit(" ");
    reveal_strlit("_");
    if s.len() == 0 {
        assert(underscored(s) =~= s);
    } else {
        let rest = s.drop_first();
        lemma_underscored(rest);
        assert(s.skip(1) =~= rest);
        assert(underscored(s) =~= seq![underscored(s)[0]] + underscored(rest));
        if s[0] == ' ' {
            assert(s.take(1) =~= " "@);
            assert("_"@ =~= seq!['_']);
            assert(starts_with(s, " "@));
        } else {
            if starts_with(s, " "@) {
                assert(" "@[0] == ' ');
            }
        }
    }
}

proof fn lemma_trimmed_ends(s: Seq<char>)
    ensures
        trimmed(s).len() > 0 ==> !white_space(trimmed(s)[0]) && !white_space(trimmed(s).last()),
{
    let front = trimmed_start(s, CharClass::White);
    lemma_front_trimmed(s);
    lemma_back_trimmed(front);
}

proof fn lemma_front_trimmed(s: Seq<char>)
    ensures
        trimmed_start(s, CharClass::White).len() > 0 ==> !white_space(
            trimmed_start(s, CharClass::White)[0],
        ),
    decreases s.len(),
{
    if s.len() > 0 && white_space(s[0]) {
        lemma_front_trimmed(s.drop_first());
    }
}

proof fn lemma_back_trimmed(s: Seq<char>)
    ensures
        ({
            let t = trimmed_end(s, CharClass::White);
            t.len() > 0 ==> t[0] == s[0] && !white_space(t.last())
        }),
    decreases s.len(),
{
    if s.len() > 0 && white_space(s.last()) {
        lemma_back_trimmed(s.drop_last());
    }
}

/// The stable form of a type name has no space. Where the name,
/// apart from white space around it, is ASCII text, the stable form has no white
/// space at its ends and is its own stable form.
pub proof fn law_type_is_stable(raw: Seq<char>)
    ensures
        !stable_type(raw).contains(' '),
        is_ascii_chars(trimmed(raw)) ==> trimmed(stable_type(raw)) == stable_type(raw),
        is_ascii_chars(trimmed(raw)) ==> stable_type(stable_type(raw)) == stable_type(raw),
{
    let t = trimmed(raw);
    let low = lower_form(t);
    let out = stable_type(raw);
    lemma_underscored(low);
    lemma_trimmed_ends(raw);
    if is_ascii_chars(t) {
        assert(low =~= ascii_lowercase(t));
        assert forall|i: int| 0 <= i < out.len() implies '\0' <= #[trigger] out[i] <= '\u{7f}'
            && ascii_lower(out[i]) == out[i] && out[i] != ' ' by {
            assert('\0' <= t[i] <= '\u{7f}');
        }
        if out.len() > 0 {
            assert(!white_space(out[0]) && !white_space(out.last())) by {
                assert(!white_space(t[0]) && !white_space(t.last()));
            }
        }
        assert(trimmed(out) =~= out);
        assert(ascii_lowercase(out) =~= out);
        lemma_underscored(out);
        assert(underscored(out) =~= out);
    }
}

/// Type names that differ only in the white space around them have one stable
/// form, and so have ASCII names that differ besides in the case of letters.
pub proof fn law_type_ignores_case(a: Seq<char>, b: Seq<char>)
    requires
        trimmed(a) == trimmed(b) || same_but_case(trimmed(a), trimmed(b)),
    ensures
        stable_type(a) == stable_type(b),
{
}

// ---------------------------------------------------------------------------
// Accumulation
// ---------------------------------------------------------------------------
/// The key under which mentions of one entity meet.
pub open spec fn mention_key(m: Mention) -> Seq<char> {
    lower_form(m.entity_type) + ":"@ + lower_form(m.canonical)
}

/// Whether a mention is confident and long enough, and not too long.
pub open spec fn accepted(config: EntityExtractionConfig, m: Mention) -> bool {
    &&& !m.confidence.less(config.min_confidence)
    &&& config.min_phrase_chars <= byte_count(m.canonical) <= config.max_phrase_chars
}

/// A list of aliases with those of a second list that are new, while there is
/// room.
pub open spec fn merged_aliases(
    list: Seq<Seq<char>>,
    more: Seq<Seq<char>>,
    max: int,
) -> Seq<Seq<char>>
    decreases more.len(),
{
    if more.len() == 0 {
        list
    } else {
        let rest = merged_aliases(list, more.drop_last(), max);
        if rest.len() < max && !rest.contains(more.last()) {
            rest.push(more.last())
        } else {
            rest
        }
    }
}

/// Two mentions of one entity made into one. The more confident mention gives
/// the confidence, and the role where it has one.
pub open spec fn merged(existing: Mention, m: Mention, max: int) -> Mention {
    let better = existing.confidence.less(m.confidence);
    Mention {
        canonical: existing.canonical,
        entity_type: existing.entity_type,
        aliases: merged_aliases(existing.aliases, m.aliases, max),
        role: if better && m.role is Some {
            m.role
        } else {
            existing.role
        },
        confidence: if better {
            m.confidence
        } else {
            existing.confidence
        },
        evidence: if better && existing.evidence is None {
            m.evidence
        } else {
            existing.evidence
        },
    }
}

/// The entries after one more mention.
pub open spec fn added(
    config: EntityExtractionConfig,
    entries: Seq<(Seq<char>, Mention)>,
    m: Mention,
) -> Seq<(Seq<char>, Mention)> {
    if !accepted(config, m) {
        entries
    } else {
        match key_index(entries, mention_key(m)) {
            Some(i) => entries.update(
                i,
                (entries[i].0, merged(entries[i].1, m, config.max_aliases_per_entity as int)),
            ),
            None => if entries.len() < config.max_entities_per_memory {
                entries.push((mention_key(m), m))
            } else {
                entries
            },
        }
    }
}

/// Mentions whose names and types differ at most in the case of ASCII letters are
/// of one entity: they have one key, and after the first the second adds no entry.
pub proof fn law_case_makes_no_entity(
    config: EntityExtractionConfig,
    entries: Seq<(Seq<char>, Mention)>,
    a: Mention,
    b: Mention,
)
    requires
        same_but_case(a.canonical, b.canonical),
        same_but_case(a.entity_type, b.entity_type),
        accepted(config, a),
    ensures
        mention_key(a) == mention_key(b),
        added(config, added(config, entries, a), b).len() == added(config, entries, a).len(),
{
    let mid = added(config, entries, a);
    law_key_index(mid, mention_key(b));
    law_key_index(entries, mention_key(a));
    if key_index(entries, mention_key(a)) is None && entries.len()
        < config.max_entities_per_memory {
        assert(mid[entries.len() as int].0 == mention_key(b));
    }
    if let Some(i) = key_index(entries, mention_key(a)) {
        assert(mid[i].0 == mention_key(b));
    }
}

/// ASCII names that differ in more than case are two entities of one type.
pub proof fn law_names_make_entities(a: Mention, b: Mention)
    requires
        is_ascii_chars(a.canonical),
        is_ascii_chars(b.canonical),
        ascii_lowercase(a.canonical) != ascii_lowercase(b.canonical),
        a.entity_type == b.entity_type,
    ensures
        mention_key(a) != mention_key(b),
{
    let head = lower_form(a.entity_type) + ":"@;
    if mention_key(a) == mention_key(b) {
        assert(mention_key(a).skip(head.len() as int) =~= lower_form(a.canonical));
        assert(mention_key(b).skip(head.len() as int) =~= lower_form(b.canonical));
    }
}

/// The entries after a sequence of mentions.
pub open spec fn added_all(
    config: EntityExtractionConfig,
    entries: Seq<(Seq<char>, Mention)>,
    mentions: Seq<Mention>,
) -> Seq<(Seq<char>, Mention)>
    decreases mentions.len(),
{
    if mentions.len() == 0 {
        entries
    } else {
        added(config, added_all(config, entries, mentions.drop_last()), mentions.last())
    }
}

proof fn lemma_added_all_concat(
    config: EntityExtractionConfig,
    entries: Seq<(Seq<char>, Mention)>,
    a: Seq<Mention>,
    b: Seq<Mention>,
)
    ensures
        added_all(config, added_all(config, entries, a), b) == added_all(config, entries, a + b),
    decreases b.len(),
{
    if b.len() == 0 {
        assert(a + b =~= a);
    } else {
        lemma_added_all_concat(config, entries, a, b.drop_last());
        assert((a + b).drop_last() =~= a + b.drop_last());
    }
}

/// An entity with the key that its mentions share.
pub struct KeyedEntity {
    pub key: String,
    pub entity: ExtractedEntity,
}

impl View for KeyedEntity {
    type V = (Seq<char>, Mention);

    open spec fn view(&self) -> (Seq<char>, Mention) {
        (self.key@, self.entity@)
    }
}

impl Keyed for KeyedEntity {
    type Held = Mention;

    fn key(&self) -> (res: &str) {
        self.key.as_str()
    }
}

/// Collects mentions, one entry for each entity, in the order in which the
/// entities appear first.
pub struct EntityAccumulator {
    pub config: EntityExtractionConfig,
    pub entries: Vec<KeyedEntity>,
}

impl View for EntityAccumulator {
    type V = Seq<(Seq<char>, Mention)>;

    open spec fn view(&self) -> Seq<(Seq<char>, Mention)> {
        views_of(self.entries@)
    }
}

fn merge_aliases(list: &mut Vec<String>, more: &Vec<String>, max: usize)
    ensures
        views(final(list)@) == merged_aliases(views(old(list)@), views(more@), max as int),
{
    let ghost start = views(list@);
    let ghost all = views(more@);
    for i in 0..more.len()
        invariant
            all == views(more@),
            views(list@) == merged_aliases(start, all.take(i as int), max as int),
    {
        proof {
            assert(all.take(i + 1).drop_last() =~= all.take(i as int));
        }
        if list.len() < max && !has_text(list, more[i].as_str()) {
            let alias = copy_text(more[i].as_str());
            proof {
                lemma_views_push(list@, alias);
            }
            list.push(alias);
        }
    }
    proof {
        assert(all.take(all.len() as int) =~= all);
    }
}

impl EntityAccumulator {
    /// An accumulator without entries.
    pub fn new(config: EntityExtractionConfig) -> (res: Self)
        ensures
            res.config == config,
            res@ == Seq::<(Seq<char>, Mention)>::empty(),
    {
        let res = EntityAccumulator { config, entries: Vec::new() };
        assert(res@ =~= Seq::empty());
        res
    }

    /// Takes in one mention.
    pub fn add(&mut self, entity: ExtractedEntity)
        ensures
            final(self).config == old(self).config,
            final(self)@ == added(old(self).config, old(self)@, entity@),
    {
        if entity.confidence.lt(self.config.min_confidence) {
            return ;
        }
        let size: usize = byte_len(entity.canonical.as_str());
        if size < self.config.min_phrase_chars || size > self.config.max_phrase_chars {
            return ;
        }
        let mut key = entity.entity_type.as_str().to_lowercase();
        key.append(":");
        key.append(entity.canonical.as_str().to_lowercase().as_str());
        assert(key@ =~= mention_key(entity@));
        match find_key(&self.entries, key.as_str()) {
            Some(i) => {
                let ghost before = self.entries@;
                let max: usize = self.config.max_aliases_per_entity;
                let mut slot = self.entries.remove(i);
                let ghost found = slot@;
                assert(found == self@.insert(i as int, found)[i as int]);
                let ghost old_entity = slot.entity@;
                merge_aliases(&mut slot.entity.aliases, &entity.aliases, max);
                if entity.confidence.gt(slot.entity.confidence) {
                    slot.entity.confidence = entity.confidence;
                    if entity.role.is_some() {
                        slot.entity.role = entity.role;
                    }
                    if slot.entity.evidence.is_none() {
                        slot.entity.evidence = entity.evidence;
                    }
                }
                proof {
                    assert(slot@.1 =~= merged(old_entity, entity@, max as int));
                }
                self.entries.insert(i, slot);
                proof {
                    assert(self@ =~= views_of(before).update(
                        i as int,
                        (found.0, merged(old_entity, entity@, max as int)),
                    ));
                }
            },
            None => {
                if self.entries.len() < self.config.max_entities_per_memory {
                    let ghost before = self.entries@;
                    let slot = KeyedEntity { key, entity };
                    self.entries.push(slot);
                    assert(self@ =~= views_of(before).push(slot@));
                }
            },
        }
    }

    /// The collected entities, most confident first.
    pub fn finish(self) -> (res: Vec<ExtractedEntity>)
        ensures
            views_of(res@) == finished(self@),
    {
        let ghost all = self@;
        let ghost flat = all.map_values(|e: (Seq<char>, Mention)| e.1);
        let mut out: Vec<ExtractedEntity> = Vec::new();
        proof {
            assert(views_of(out@) =~= flat.take(0));
        }
        for slot in it: self.entries
            invariant
                all == views_of(it.seq()),
                flat == all.map_values(|e: (Seq<char>, Mention)| e.1),
                views_of(out@) == flat.take(it.index() as int),
        {
            let ghost before = out@;
            let entity = slot.entity;
            proof {
                let i = it.index() as int;
                assert(all[i] == slot@);
                assert(flat.take(i + 1) =~= flat.take(i).push(entity@));
            }
            out.push(entity);
            assert(views_of(out@) =~= views_of(before).push(entity@));
        }
        proof {
            assert(flat.take(flat.len() as int) =~= flat);
        }
        sort_ranked(out)
    }
}

/// The mentions of the entries, most confident first.
pub open spec fn finished(entries: Seq<(Seq<char>, Mention)>) -> Seq<Mention> {
    stable_sorted(
        entries.map_values(|e: (Seq<char>, Mention)| e.1),
        |a: Mention, b: Mention| ExtractedEntity::ranks_before(a, b),
    )
}

// ---------------------------------------------------------------------------
// Extraction
// ---------------------------------------------------------------------------
/// The mention that an explicit phrase makes, where the phrase names anything.
pub open spec fn explicit_mention(
    config: EntityExtractionConfig,
    raw: Seq<char>,
    entity_type: Seq<char>,
    role: Seq<char>,
    confidence: Single,
    evidence: Seq<char>,
) -> Seq<Mention> {
    match canonical_name(raw) {
        Some(canonical) => seq![
            Mention {
                canonical,
                entity_type: stable_type(entity_type),
                aliases: alias_list(raw, canonical, config.max_aliases_per_entity as int),
                role: Some(role),
                confidence,
                evidence: Some(evidence),
            },
        ],
        None => Seq::empty(),
    }
}

/// The first `entity_type:` among the tags.
pub open spec fn tagged_type(tags: Seq<Seq<char>>) -> Option<Seq<char>>
    decreases tags.len(),
{
    if tags.len() == 0 {
        None
    } else {
        match after_prefix(tags[0], "entity_type:"@) {
            Some(raw) => Some(stable_type(raw)),
            None => tagged_type(tags.drop_first()),
        }
    }
}

/// The mentions that `entity:` tags make, all of the same type.
pub open spec fn tag_mentions(
    config: EntityExtractionConfig,
    entity_type: Seq<char>,
    tags: Seq<Seq<char>>,
) -> Seq<Mention>
    decreases tags.len(),
{
    if tags.len() == 0 {
        Seq::empty()
    } else {
        let rest = tag_mentions(config, entity_type, tags.drop_last());
        match after_prefix(tags.last(), "entity:"@) {
            Some(raw) => rest + explicit_mention(
                config,
                raw,
                entity_type,
                "mentioned"@,
                config.tag_confidence,
                trimmed(raw),
            ),
            None => rest,
        }
    }
}

/// The type of the entities that tags name.
pub open spec fn type_for_tags(tags: Seq<Seq<char>>) -> Seq<char> {
    match tagged_type(tags) {
        Some(t) => t,
        None => "concept"@,
    }
}

/// Whether a place is only described by what it lies near to.
pub open spec fn only_near(item: Seq<char>) -> bool {
    starts_with(lower_form(item), "near "@)
}

/// The mentions that the items of a list make.
pub open spec fn item_mentions(
    config: EntityExtractionConfig,
    items: Seq<Seq<char>>,
    entity_type: Seq<char>,
    role: Seq<char>,
    skip_near: bool,
) -> Seq<Mention>
    decreases items.len(),
{
    if items.len() == 0 {
        Seq::empty()
    } else {
        let rest = item_mentions(config, items.drop_last(), entity_type, role, skip_near);
        let item = items.last();
        if skip_near && only_near(item) {
            rest
        } else {
            rest + explicit_mention(
                config,
                item,
                entity_type,
                role,
                config.structured_confidence,
                item,
            )
        }
    }
}

/// The mentions that a field with a list of values makes.
pub open spec fn list_mentions(
    config: EntityExtractionConfig,
    clean: Seq<char>,
    key: Seq<char>,
    entity_type: Seq<char>,
    role: Seq<char>,
    skip_near: bool,
) -> Seq<Mention> {
    match value_of_field(clean, key) {
        Some(value) => item_mentions(
            config,
            structured_items(value),
            entity_type,
            role,
            skip_near,
        ),
        None => Seq::empty(),
    }
}

/// The mention that a `Name` field makes.
pub open spec fn name_mentions(config: EntityExtractionConfig, clean: Seq<char>) -> Seq<Mention> {
    match value_of_field(clean, "Name"@) {
        Some(value) => {
            let first = first_value(value);
            explicit_mention(
                config,
                first,
                "person"@,
                "subject"@,
                config.structured_confidence,
                trimmed_end(trimmed(first), CharClass::Stop),
            )
        },
        None => Seq::empty(),
    }
}

/// The mention that a line beginning with `Project` makes.
pub open spec fn project_mentions(config: EntityExtractionConfig, clean: Seq<char>) -> Seq<
    Mention,
> {
    match after_prefix(clean, "Project "@) {
        Some(rest) => {
            let project = name_part(rest);
            if trimmed(project).len() == 0 {
                Seq::empty()
            } else {
                explicit_mention(
                    config,
                    project,
                    "project"@,
                    "subject"@,
                    config.structured_confidence,
                    trimmed(project),
                )
            }
        },
        None => Seq::empty(),
    }
}

/// The mentions that one line makes.
pub open spec fn line_mentions(config: EntityExtractionConfig, line: Seq<char>) -> Seq<Mention> {
    let clean = trimmed(without_context(line));
    name_mentions(config, clean) + project_mentions(config, clean) + list_mentions(
        config,
        clean,
        "Location"@,
        "place"@,
        "location"@,
        true,
    ) + list_mentions(config, clean, "Base location"@, "place"@, "location"@, true) + list_mentions(
        config,
        clean,
        "Organization"@,
        "organization"@,
        "affiliation"@,
        false,
    ) + list_mentions(config, clean, "Company"@, "organization"@, "affiliation"@, false)
        + list_mentions(config, clean, "Employer"@, "organization"@, "affiliation"@, false)
        + list_mentions(config, clean, "Technology"@, "technology"@, "tool"@, false)
        + list_mentions(config, clean, "Technologies"@, "technology"@, "tool"@, false)
        + list_mentions(config, clean, "Stack"@, "technology"@, "tool"@, false) + list_mentions(
        config,
        clean,
        "Core stack"@,
        "technology"@,
        "tool"@,
        false,
    )
}

/// The mentions that the lines of a text make.
pub open spec fn text_mentions(config: EntityExtractionConfig, all: Seq<Seq<char>>) -> Seq<Mention>
    decreases all.len(),
{
    if all.len() == 0 {
        Seq::empty()
    } else {
        text_mentions(config, all.drop_last()) + line_mentions(config, all.last())
    }
}

/// Every mention of a memory, those of its tags first.
pub open spec fn all_mentions(
    config: EntityExtractionConfig,
    text: Seq<char>,
    tags: Seq<Seq<char>>,
) -> Seq<Mention> {
    tag_mentions(config, type_for_tags(tags), tags) + text_mentions(config, lines(text))
}

/// The entries that the mentions of a memory leave.
pub open spec fn collected(
    config: EntityExtractionConfig,
    text: Seq<char>,
    tags: Seq<Seq<char>>,
) -> Seq<(Seq<char>, Mention)> {
    added_all(config, Seq::empty(), all_mentions(config, text, tags))
}

/// The entities that a memory names.
pub open spec fn extracted(
    config: EntityExtractionConfig,
    text: Seq<char>,
    tags: Seq<Seq<char>>,
) -> Seq<Mention> {
    if config.enabled {
        finished(collected(config, text, tags))
    } else {
        Seq::empty()
    }
}

/// Deterministic surface linker used by the hot path and tests.
#[derive(Clone, Copy, Debug)]
pub struct RuleBasedEntityExtractor {
    pub config: EntityExtractionConfig,
}

impl RuleBasedEntityExtractor {
    pub fn new(config: EntityExtractionConfig) -> (res: Self)
        ensures
            res.config == config,
    {
        RuleBasedEntityExtractor { config }
    }

    /// The entities that the content and the tags of a memory name.
    pub fn extract_memory(&self, memory: &MemoryNode) -> (res: Vec<ExtractedEntity>)
        ensures
            views_of(res@) == extracted(self.config, memory.content@, views(memory.tags@)),
    {
        self.extract_text(memory.content.as_str(), &memory.tags)
    }

    /// A query names no entity by itself: it is resolved against stored
    /// aliases.
    pub fn extract_query(&self, _query: &str) -> (res: Vec<ExtractedEntity>)
        ensures
            res@.len() == 0,
    {
        Vec::new()
    }

    /// The entities that a text and its tags name.
    pub fn extract_text(&self, text: &str, tags: &Vec<String>) -> (res: Vec<ExtractedEntity>)
        ensures
            views_of(res@) == extracted(self.config, text@, views(tags@)),
    {
        if !self.config.enabled {
            let none: Vec<ExtractedEntity> = Vec::new();
            assert(views_of(none@) =~= Seq::empty());
            return none;
        }
        let mut entities = EntityAccumulator::new(self.config);
        self.extract_tag_entities(tags, &mut entities);
        self.extract_structured_fields(text, &mut entities);
        proof {
            lemma_added_all_concat(
                self.config,
                Seq::empty(),
                tag_mentions(self.config, type_for_tags(views(tags@)), views(tags@)),
                text_mentions(self.config, lines(text@)),
            );
        }
        entities.finish()
    }

    /// Takes in the mentions that tags make.
    pub fn extract_tag_entities(&self, tags: &Vec<String>, entities: &mut EntityAccumulator)
        requires
            old(entities).config == self.config,
        ensures
            final(entities).config == self.config,
            final(entities)@ == added_all(
                self.config,
                old(entities)@,
                tag_mentions(self.config, type_for_tags(views(tags@)), views(tags@)),
            ),
    {
        let ghost all = views(tags@);
        let entity_type = first_tagged_type(tags);
        let ghost start = entities@;
        for i in 0..tags.len()
            invariant
                all == views(tags@),
                entity_type@ == type_for_tags(all),
                entities.config == self.config,
                entities@ == added_all(
                    self.config,
                    start,
                    tag_mentions(self.config, entity_type@, all.take(i as int)),
                ),
        {
            proof {
                assert(all.take(i + 1).drop_last() =~= all.take(i as int));
                assert(all.take(i + 1).last() == tags@[i as int]@);
            }
            if let Some(raw) = strip_prefix(tags[i].as_str(), "entity:") {
                self.add_explicit(
                    raw,
                    entity_type.as_str(),
                    "mentioned",
                    self.config.tag_confidence,
                    copy_text(trim(raw)),
                    entities,
                );
                proof {
                    lemma_added_all_concat(
                        self.config,
                        start,
                        tag_mentions(self.config, entity_type@, all.take(i as int)),
                        explicit_mention(
                            self.config,
                            raw@,
                            entity_type@,
                            "mentioned"@,
                            self.config.tag_confidence,
                            trimmed(raw@),
                        ),
                    );
                }
            }
        }
        proof {
            assert(all.take(all.len() as int) =~= all);
        }
    }

    /// Takes in the mentions that the lines of a text make.
    pub fn extract_structured_fields(&self, text: &str, entities: &mut EntityAccumulator)
        requires
            old(entities).config == self.config,
        ensures
            final(entities).config == self.config,
            final(entities)@ == added_all(
                self.config,
                old(entities)@,
                text_mentions(self.config, lines(text@)),
            ),
    {
        let rows = split_lines(text);
        let ghost all = views(rows@);
        let ghost start = entities@;
        for i in 0..rows.len()
            invariant
                all == views(rows@),
                entities.config == self.config,
                entities@ == added_all(
                    self.config,
                    start,
                    text_mentions(self.config, all.take(i as int)),
                ),
        {
            proof {
                assert(all.take(i + 1).drop_last() =~= all.take(i as int));
                assert(all.take(i + 1).last() == rows@[i as int]@);
                lemma_added_all_concat(
                    self.config,
                    start,
                    text_mentions(self.config, all.take(i as int)),
                    line_mentions(self.config, all[i as int]),
                );
            }
            self.extract_line(rows[i].as_str(), entities);
        }
        proof {
            assert(all.take(all.len() as int) =~= all);
        }
    }

    fn extract_line(&self, line: &str, entities: &mut EntityAccumulator)
        requires
            old(entities).config == self.config,
        ensures
            final(entities).config == self.config,
            final(entities)@ == added_all(
                self.config,
                old(entities)@,
                line_mentions(self.config, line@),
            ),
    {
        let ghost c = self.config;
        let ghost start = entities@;
        let clean = trim(trim_context_prefix(line));
        let ghost mut done: Seq<Mention> = Seq::empty();
        if let Some(value) = field_value(clean, "Name") {
            let first = first_structured_value(value);
            self.add_explicit(
                first,
                "person",
                "subject",
                self.config.structured_confidence,
                copy_text(trim_end_class(trim(first), CharClass::Stop)),
                entities,
            );
        }
        proof {
            done = name_mentions(c, clean@);
            lemma_added_all_concat(c, start, done, project_mentions(c, clean@));
        }
        if let Some(rest) = strip_prefix(clean, "Project ") {
            let project = take_until_boundary(rest);
            if !trim(project).is_empty() {
                self.add_explicit(
                    project,
                    "project",
                    "subject",
                    self.config.structured_confidence,
                    copy_text(trim(project)),
                    entities,
                );
            }
        }
        proof {
            done = done + project_mentions(c, clean@);
        }
        self.extract_list(clean, "Location", "place", "location", true, entities);
        proof {
            let more = list_mentions(c, clean@, "Location"@, "place"@, "location"@, true);
            lemma_added_all_concat(c, start, done, more);
            done = done + more;
        }
        self.extract_list(clean, "Base location", "place", "location", true, entities);
        proof {
            let more = list_mentions(c, clean@, "Base location"@, "place"@, "location"@, true);
            lemma_added_all_concat(c, start, done, more);
            done = done + more;
        }
        self.extract_list(clean, "Organization", "organization", "affiliation", false, entities);
        proof {
            let more = list_mentions(
                c,
                clean@,
                "Organization"@,
                "organization"@,
                "affiliation"@,
                false,
            );
            lemma_added_all_concat(c, start, done, more);
            done = done + more;
        }
        self.extract_list(clean, "Company", "organization", "affiliation", false, entities);
        proof {
            let more = list_mentions(
                c,
                clean@,
                "Company"@,
                "organization"@,
                "affiliation"@,
                false,
            );
            lemma_added_all_concat(c, start, done, more);
            done = done + more;
        }
        self.extract_list(clean, "Employer", "organization", "affiliation", false, entities);
        proof {
            let more = list_mentions(
                c,
                clean@,
                "Employer"@,
                "organization"@,
                "affiliation"@,
                false,
            );
            lemma_added_all_concat(c, start, done, more);
            done = done + more;
        }
        self.extract_list(clean, "Technology", "technology", "tool", false, entities);
        proof {
            let more = list_mentions(c, clean@, "Technology"@, "technology"@, "tool"@, false);
            lemma_added_all_concat(c, start, done, more);
            done = done + more;
        }
        self.extract_list(clean, "Technologies", "technology", "tool", false, entities);
        proof {
            let more = list_mentions(c, clean@, "Technologies"@, "technology"@, "tool"@, false);
            lemma_added_all_concat(c, start, done, more);
            done = done + more;
        }
        self.extract_list(clean, "Stack", "technology", "tool", false, entities);
        proof {
            let more = list_mentions(c, clean@, "Stack"@, "technology"@, "tool"@, false);
            lemma_added_all_concat(c, start, done, more);
            done = done + more;
        }
        self.extract_list(clean, "Core stack", "technology", "tool", false, entities);
        proof {
            let more = list_mentions(c, clean@, "Core stack"@, "technology"@, "tool"@, false);
            lemma_added_all_concat(c, start, done, more);
        }
    }

    fn extract_list(
        &self,
        clean: &str,
        key: &str,
        entity_type: &str,
        role: &str,
        skip_near: bool,
        entities: &mut EntityAccumulator,
    )
        requires
            old(entities).config == self.config,
        ensures
            final(entities).config == self.config,
            final(entities)@ == added_all(
                self.config,
                old(entities)@,
                list_mentions(self.config, clean@, key@, entity_type@, role@, skip_near),
            ),
    {
        if let Some(value) = field_value(clean, key) {
            let items = split_structured_list(value);
            let ghost all = views(items@);
            let ghost start = entities@;
            for i in 0..items.len()
                invariant
                    all == views(items@),
                    entities.config == self.config,
                    entities@ == added_all(
                        self.config,
                        start,
                        item_mentions(
                            self.config,
                            all.take(i as int),
                            entity_type@,
                            role@,
                            skip_near,
                        ),
                    ),
            {
                proof {
                    assert(all.take(i + 1).drop_last() =~= all.take(i as int));
                    assert(all.take(i + 1).last() == items@[i as int]@);
                }
                let item = items[i].as_str();
                let near = skip_near && has_prefix(item.to_lowercase().as_str(), "near ");
                if !near {
                    proof {
                        lemma_added_all_concat(
                            self.config,
                            start,
                            item_mentions(
                                self.config,
                                all.take(i as int),
                                entity_type@,
                                role@,
                                skip_near,
                            ),
                            explicit_mention(
                                self.config,
                                item@,
                                entity_type@,
                                role@,
                                self.config.structured_confidence,
                                item@,
                            ),
                        );
                    }
                    self.add_explicit(
                        item,
                        entity_type,
                        role,
                        self.config.structured_confidence,
                        copy_text(item),
                        entities,
                    );
                }
            }
            proof {
                assert(all.take(all.len() as int) =~= all);
            }
        }
    }

    /// Takes in the mention that an explicit phrase makes.
    pub fn add_explicit(
        &self,
        raw: &str,
        entity_type: &str,
        role: &str,
        confidence: Single,
        evidence: String,
        entities: &mut EntityAccumulator,
    )
        requires
            old(entities).config == self.config,
        ensures
            final(entities).config == self.config,
            final(entities)@ == added_all(
                self.config,
                old(entities)@,
                explicit_mention(self.config, raw@, entity_type@, role@, confidence, evidence@),
            ),
    {
        let ghost mentions = explicit_mention(
            self.config,
            raw@,
            entity_type@,
            role@,
            confidence,
            evidence@,
        );
        match canonicalize_phrase(raw) {
            Some(canonical) => {
                let aliases = aliases_for(
                    raw,
                    canonical.as_str(),
                    self.config.max_aliases_per_entity,
                );
                let entity = ExtractedEntity {
                    canonical,
                    entity_type: normalize_type(entity_type),
                    aliases,
                    role: Some(copy_text(role)),
                    confidence,
                    evidence: Some(evidence),
                };
                proof {
                    assert(mentions =~= seq![entity@]);
                    assert(mentions.drop_last() =~= Seq::empty());
                    assert(added_all(self.config, entities@, mentions.drop_last()) == entities@);
                }
                entities.add(entity);
            },
            None => {},
        }
    }
}

fn first_tagged_type(tags: &Vec<String>) -> (res: String)
    ensures
        res@ == type_for_tags(views(tags@)),
{
    let ghost all = views(tags@);
    proof {
        assert(all.skip(0) =~= all);
    }
    for i in 0..tags.len()
        invariant
            all == views(tags@),
            tagged_type(all) == tagged_type(all.skip(i as int)),
    {
        proof {
            assert(all.skip(i as int)[0] == tags@[i as int]@);
            assert(all.skip(i as int).drop_first() =~= all.skip(i + 1));
        }
        if let Some(raw) = strip_prefix(tags[i].as_str(), "entity_type:") {
            return normalize_type(raw);
        }
    }
    copy_text("concept")
}

// ---------------------------------------------------------------------------
// Laws
// ---------------------------------------------------------------------------
/// Whether an alias list is within its bound and holds nothing twice.
pub open spec fn tidy_aliases(list: Seq<Seq<char>>, max: int) -> bool {
    list.len() <= max && list.no_duplicates()
}

/// What holds of the entries at any time: one entry for each key, no more of
/// them than the limit, each one accepted and with tidy aliases, and with one
/// of the two configured confidences.
pub open spec fn tidy(
    config: EntityExtractionConfig,
    entries: Seq<(Seq<char>, Mention)>,
) -> bool {
    &&& entries.len() <= config.max_entities_per_memory
    &&& forall|i: int|
        0 <= i < entries.len() ==> {
            &&& (#[trigger] entries[i]).0 == mention_key(entries[i].1)
            &&& accepted(config, entries[i].1)
            &&& tidy_mention(config, entries[i].1)
        }
    &&& forall|i: int, j: int|
        0 <= i < j < entries.len() ==> (#[trigger] entries[i]).0 != (#[trigger] entries[j]).0
}

/// Whether a mention has tidy aliases and a configured confidence.
pub open spec fn tidy_mention(config: EntityExtractionConfig, m: Mention) -> bool {
    &&& tidy_aliases(m.aliases, config.max_aliases_per_entity as int)
    &&& m.confidence == config.tag_confidence || m.confidence == config.structured_confidence
}

proof fn lemma_push_no_duplicates(s: Seq<Seq<char>>, x: Seq<char>)
    requires
        s.no_duplicates(),
        !s.contains(x),
    ensures
        s.push(x).no_duplicates(),
{
    let t = s.push(x);
    assert forall|i: int, j: int| 0 <= i < t.len() && 0 <= j < t.len() && i != j implies t[i]
        != t[j] by {
        if i < s.len() {
            assert(s.contains(s[i]));
        }
        if j < s.len() {
            assert(s.contains(s[j]));
        }
    }
}

proof fn lemma_alias_list_tidy(raw: Seq<char>, canonical: Seq<char>, max: int)
    requires
        0 <= max,
    ensures
        tidy_aliases(alias_list(raw, canonical, max), max),
{
    let a = Seq::<Seq<char>>::empty();
    let written = trimmed_end(trimmed(raw), CharClass::Stop);
    let b = with_alias(a, written, max);
    let c = with_alias(b, canonical, max);
    if !a.contains(written) {
        lemma_push_no_duplicates(a, written);
    }
    if !b.contains(canonical) {
        lemma_push_no_duplicates(b, canonical);
    }
    if !c.contains(lower_form(canonical)) {
        lemma_push_no_duplicates(c, lower_form(canonical));
    }
}

proof fn lemma_merged_aliases_tidy(list: Seq<Seq<char>>, more: Seq<Seq<char>>, max: int)
    requires
        tidy_aliases(list, max),
    ensures
        tidy_aliases(merged_aliases(list, more, max), max),
    decreases more.len(),
{
    if more.len() > 0 {
        lemma_merged_aliases_tidy(list, more.drop_last(), max);
        let rest = merged_aliases(list, more.drop_last(), max);
        if !rest.contains(more.last()) {
            lemma_push_no_duplicates(rest, more.last());
        }
    }
}

/// Adding a mention keeps the entries tidy: one for each key, within the
/// limits, each accepted.
pub proof fn law_add_keeps_tidy(
    config: EntityExtractionConfig,
    entries: Seq<(Seq<char>, Mention)>,
    m: Mention,
)
    requires
        tidy(config, entries),
        tidy_mention(config, m),
    ensures
        tidy(config, added(config, entries, m)),
{
    let max = config.max_aliases_per_entity as int;
    let out = added(config, entries, m);
    law_key_index(entries, mention_key(m));
    if accepted(config, m) {
        match key_index(entries, mention_key(m)) {
            Some(k) => {
                let old_m = entries[k].1;
                lemma_merged_aliases_tidy(old_m.aliases, m.aliases, max);
                assert(out[k].1 == merged(old_m, m, max));
                assert(tidy_mention(config, out[k].1));
                assert forall|i: int, j: int| 0 <= i < j < out.len() implies (
                #[trigger] out[i]).0 != (#[trigger] out[j]).0 by {
                    assert(entries[i].0 != entries[j].0);
                    assert(out[i].0 == entries[i].0);
                    assert(out[j].0 == entries[j].0);
                }
                assert forall|i: int| 0 <= i < out.len() implies {
                    &&& (#[trigger] out[i]).0 == mention_key(out[i].1)
                    &&& accepted(config, out[i].1)
                    &&& tidy_mention(config, out[i].1)
                } by {
                    assert(entries[i].0 == mention_key(entries[i].1));
                }
            },
            None => {
                assert forall|i: int, j: int| 0 <= i < j < out.len() implies (
                #[trigger] out[i]).0 != (#[trigger] out[j]).0 by {
                    assert(entries[i].0 != mention_key(m));
                    if j < entries.len() {
                        assert(entries[j] == out[j]);
                    }
                }
            },
        }
    }
}

proof fn lemma_added_all_tidy(
    config: EntityExtractionConfig,
    entries: Seq<(Seq<char>, Mention)>,
    mentions: Seq<Mention>,
)
    requires
        tidy(config, entries),
        forall|i: int| 0 <= i < mentions.len() ==> tidy_mention(config, #[trigger] mentions[i]),
    ensures
        tidy(config, added_all(config, entries, mentions)),
    decreases mentions.len(),
{
    if mentions.len() > 0 {
        let head = mentions.drop_last();
        assert forall|i: int| 0 <= i < head.len() implies tidy_mention(
            config,
            #[trigger] head[i],
        ) by {
            assert(head[i] == mentions[i]);
        }
        lemma_added_all_tidy(config, entries, head);
        assert(tidy_mention(config, mentions[mentions.len() - 1]));
        law_add_keeps_tidy(config, added_all(config, entries, head), mentions.last());
    }
}

/// Whether every mention of a sequence is tidy.
spec fn all_tidy(config: EntityExtractionConfig, s: Seq<Mention>) -> bool {
    forall|i: int| 0 <= i < s.len() ==> tidy_mention(config, #[trigger] s[i])
}

proof fn lemma_all_tidy_concat(config: EntityExtractionConfig, a: Seq<Mention>, b: Seq<Mention>)
    requires
        all_tidy(config, a),
        all_tidy(config, b),
    ensures
        all_tidy(config, a + b),
{
    assert forall|i: int| 0 <= i < (a + b).len() implies tidy_mention(
        config,
        #[trigger] (a + b)[i],
    ) by {
        if i < a.len() {
            assert((a + b)[i] == a[i]);
        } else {
            assert((a + b)[i] == b[i - a.len()]);
        }
    }
}

proof fn lemma_explicit_tidy(
    config: EntityExtractionConfig,
    raw: Seq<char>,
    entity_type: Seq<char>,
    role: Seq<char>,
    confidence: Single,
    evidence: Seq<char>,
)
    requires
        confidence == config.tag_confidence || confidence == config.structured_confidence,
    ensures
        all_tidy(config, explicit_mention(config, raw, entity_type, role, confidence, evidence)),
{
    if let Some(canonical) = canonical_name(raw) {
        lemma_alias_list_tidy(raw, canonical, config.max_aliases_per_entity as int);
    }
}

proof fn lemma_tag_mentions_tidy(
    config: EntityExtractionConfig,
    entity_type: Seq<char>,
    tags: Seq<Seq<char>>,
)
    ensures
        all_tidy(config, tag_mentions(config, entity_type, tags)),
    decreases tags.len(),
{
    if tags.len() > 0 {
        lemma_tag_mentions_tidy(config, entity_type, tags.drop_last());
        if let Some(raw) = after_prefix(tags.last(), "entity:"@) {
            lemma_explicit_tidy(
                config,
                raw,
                entity_type,
                "mentioned"@,
                config.tag_confidence,
                trimmed(raw),
            );
            lemma_all_tidy_concat(
                config,
                tag_mentions(config, entity_type, tags.drop_last()),
                explicit_mention(
                    config,
                    raw,
                    entity_type,
                    "mentioned"@,
                    config.tag_confidence,
                    trimmed(raw),
                ),
            );
        }
    }
}

proof fn lemma_item_mentions_tidy(
    config: EntityExtractionConfig,
    items: Seq<Seq<char>>,
    entity_type: Seq<char>,
    role: Seq<char>,
    skip_near: bool,
)
    ensures
        all_tidy(config, item_mentions(config, items, entity_type, role, skip_near)),
    decreases items.len(),
{
    if items.len() > 0 {
        let item = items.last();
        lemma_item_mentions_tidy(config, items.drop_last(), entity_type, role, skip_near);
        lemma_explicit_tidy(
            config,
            item,
            entity_type,
            role,
            config.structured_confidence,
            item,
        );
        lemma_all_tidy_concat(
            config,
            item_mentions(config, items.drop_last(), entity_type, role, skip_near),
            explicit_mention(config, item, entity_type, role, config.structured_confidence, item),
        );
    }
}

proof fn lemma_list_mentions_tidy(
    config: EntityExtractionConfig,
    before: Seq<Mention>,
    clean: Seq<char>,
    key: Seq<char>,
    entity_type: Seq<char>,
    role: Seq<char>,
    skip_near: bool,
)
    requires
        all_tidy(config, before),
    ensures
        all_tidy(
            config,
            before + list_mentions(config, clean, key, entity_type, role, skip_near),
        ),
{
    if let Some(value) = value_of_field(clean, key) {
        lemma_item_mentions_tidy(config, structured_items(value), entity_type, role, skip_near);
    }
    lemma_all_tidy_concat(
        config,
        before,
        list_mentions(config, clean, key, entity_type, role, skip_near),
    );
}

proof fn lemma_line_mentions_tidy(config: EntityExtractionConfig, line: Seq<char>)
    ensures
        all_tidy(config, line_mentions(config, line)),
{
    let clean = trimmed(without_context(line));
    if let Some(value) = value_of_field(clean, "Name"@) {
        let first = first_value(value);
        lemma_explicit_tidy(
            config,
            first,
            "person"@,
            "subject"@,
            config.structured_confidence,
            trimmed_end(trimmed(first), CharClass::Stop),
        );
    }
    if let Some(rest) = after_prefix(clean, "Project "@) {
        let project = name_part(rest);
        lemma_explicit_tidy(
            config,
            project,
            "project"@,
            "subject"@,
            config.structured_confidence,
            trimmed(project),
        );
    }
    let a = name_mentions(config, clean);
    let b = project_mentions(config, clean);
    lemma_all_tidy_concat(config, a, b);
    let l1 = a + b;
    lemma_list_mentions_tidy(config, l1, clean, "Location"@, "place"@, "location"@, true);
    let l2 = l1 + list_mentions(config, clean, "Location"@, "place"@, "location"@, true);
    lemma_list_mentions_tidy(config, l2, clean, "Base location"@, "place"@, "location"@, true);
    let l3 = l2 + list_mentions(config, clean, "Base location"@, "place"@, "location"@, true);
    let org = "organization"@;
    let aff = "affiliation"@;
    lemma_list_mentions_tidy(config, l3, clean, "Organization"@, org, aff, false);
    let l4 = l3 + list_mentions(config, clean, "Organization"@, org, aff, false);
    lemma_list_mentions_tidy(config, l4, clean, "Company"@, org, aff, false);
    let l5 = l4 + list_mentions(config, clean, "Company"@, org, aff, false);
    lemma_list_mentions_tidy(config, l5, clean, "Employer"@, org, aff, false);
    let l6 = l5 + list_mentions(config, clean, "Employer"@, org, aff, false);
    let tech = "technology"@;
    lemma_list_mentions_tidy(config, l6, clean, "Technology"@, tech, "tool"@, false);
    let l7 = l6 + list_mentions(config, clean, "Technology"@, tech, "tool"@, false);
    lemma_list_mentions_tidy(config, l7, clean, "Technologies"@, tech, "tool"@, false);
    let l8 = l7 + list_mentions(config, clean, "Technologies"@, tech, "tool"@, false);
    lemma_list_mentions_tidy(config, l8, clean, "Stack"@, tech, "tool"@, false);
    let l9 = l8 + list_mentions(config, clean, "Stack"@, tech, "tool"@, false);
    lemma_list_mentions_tidy(config, l9, clean, "Core stack"@, tech, "tool"@, false);
}

proof fn lemma_text_mentions_tidy(config: EntityExtractionConfig, all: Seq<Seq<char>>)
    ensures
        all_tidy(config, text_mentions(config, all)),
    decreases all.len(),
{
    if all.len() > 0 {
        lemma_text_mentions_tidy(config, all.drop_last());
        lemma_line_mentions_tidy(config, all.last());
        lemma_all_tidy_concat(
            config,
            text_mentions(config, all.drop_last()),
            line_mentions(config, all.last()),
        );
    }
}

/// What is collected from any text and tags is tidy.
pub proof fn law_collected_tidy(
    config: EntityExtractionConfig,
    text: Seq<char>,
    tags: Seq<Seq<char>>,
)
    ensures
        tidy(config, collected(config, text, tags)),
{
    let t = type_for_tags(tags);
    lemma_tag_mentions_tidy(config, t, tags);
    lemma_text_mentions_tidy(config, lines(text));
    lemma_all_tidy_concat(
        config,
        tag_mentions(config, t, tags),
        text_mentions(config, lines(text)),
    );
    lemma_added_all_tidy(config, Seq::empty(), all_mentions(config, text, tags));
}

/// Whatever the text and the tags, at most the configured number of entities
/// comes out. Each is confident enough and has a name of an accepted length,
/// and its aliases are within the limit and free of duplicates.
pub proof fn law_extraction_bounds(
    config: EntityExtractionConfig,
    text: Seq<char>,
    tags: Seq<Seq<char>>,
)
    ensures
        extracted(config, text, tags).len() <= config.max_entities_per_memory,
        forall|i: int|
            0 <= i < extracted(config, text, tags).len() ==> {
                let m = #[trigger] extracted(config, text, tags)[i];
                &&& accepted(config, m)
                &&& m.aliases.len() <= config.max_aliases_per_entity
                &&& m.aliases.no_duplicates()
            },
{
    if config.enabled {
        let entries = collected(config, text, tags);
        let flat = entries.map_values(|e: (Seq<char>, Mention)| e.1);
        let rank = |a: Mention, b: Mention| ExtractedEntity::ranks_before(a, b);
        law_collected_tidy(config, text, tags);
        crate::order::law_sort_keeps_items(flat, rank);
        let out = extracted(config, text, tags);
        assert forall|i: int| 0 <= i < out.len() implies {
            let m = #[trigger] out[i];
            &&& accepted(config, m)
            &&& m.aliases.len() <= config.max_aliases_per_entity
            &&& m.aliases.no_duplicates()
        } by {
            assert(out.contains(out[i]));
            assert(flat.contains(out[i]));
            let j = choose|j: int| 0 <= j < flat.len() && flat[j] == out[i];
            assert(entries[j].1 == out[i]);
            assert(tidy_mention(config, entries[j].1));
        }
    }
}

/// Where both configured confidences are numbers, the entities come out with
/// the most confident first, and by name between equals.
pub proof fn law_extraction_sorted(
    config: EntityExtractionConfig,
    text: Seq<char>,
    tags: Seq<Seq<char>>,
)
    requires
        !config.tag_confidence.nan(),
        !config.structured_confidence.nan(),
    ensures
        crate::order::sorted_by(
            extracted(config, text, tags),
            |a: Mention, b: Mention| ExtractedEntity::ranks_before(a, b),
        ),
{
    let rank = |a: Mention, b: Mention| ExtractedEntity::ranks_before(a, b);
    if config.enabled {
        let entries = collected(config, text, tags);
        let flat = entries.map_values(|e: (Seq<char>, Mention)| e.1);
        law_collected_tidy(config, text, tags);
        assert forall|x: Mention| flat.contains(x) implies !x.confidence.nan() by {
            let j = choose|j: int| 0 <= j < flat.len() && flat[j] == x;
            assert(tidy_mention(config, entries[j].1));
        }
        assert forall|x: Mention, y: Mention|
            flat.contains(x) && flat.contains(y) && #[trigger] rank(x, y) implies !rank(y, x) by {
            crate::text::law_text_order_total(x.canonical, y.canonical);
        }
        assert forall|x: Mention, y: Mention, z: Mention|
            flat.contains(x) && flat.contains(y) && flat.contains(z) && !#[trigger] rank(x, y)
                && !#[trigger] rank(y, z) implies !rank(x, z) by {
            if text_before(x.canonical, z.canonical) {
                crate::text::law_text_order_total(x.canonical, y.canonical);
                crate::text::law_text_order_total(y.canonical, z.canonical);
                if text_before(y.canonical, x.canonical) {
                    crate::text::law_text_order_transitive(y.canonical, x.canonical, z.canonical);
                }
            }
        }
        crate::order::law_sort_orders(flat, rank);
    }
}

/// Without write-time linking, nothing is extracted.
pub proof fn law_disabled_extracts_nothing(
    config: EntityExtractionConfig,
    text: Seq<char>,
    tags: Seq<Seq<char>>,
)
    requires
        !config.enabled,
    ensures
        extracted(config, text, tags) == Seq::<Mention>::empty(),
{
}

} // verus!
