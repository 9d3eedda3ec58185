//! Entity names with the text around them, as material for telling entities
//! apart.
use crate::entities::{entity_name, first_after, first_tag_after, normal_name};
use crate::keyed::{find_key, key_index, law_key_index, Keyed};
use crate::memory::{MemoryNode, MemoryView};
use crate::order::views_of;
use crate::text::{byte_count, byte_len, copy_text};
use vstd::prelude::*;
use vstd::utf8::{decode_utf8, encode_utf8, is_char_boundary};

verus! {

/// How many bytes of the first memory a context takes in.
pub const CONTEXT_START_BYTES: usize = 300;

/// How many bytes a context has at most after memories were added.
pub const CONTEXT_LIMIT_BYTES: usize = 500;

/// The first bytes of a text, none where the cut is inside a character.
pub open spec fn byte_prefix(s: Seq<char>, limit: int) -> Option<Seq<char>> {
    let bytes = encode_utf8(s);
    let n = if limit < bytes.len() {
        limit
    } else {
        bytes.len() as int
    };
    if is_char_boundary(bytes, n) {
        Some(decode_utf8(bytes.subrange(0, n)))
    } else {
        None
    }
}

fn cut_bytes<'a>(s: &'a str, limit: usize) -> (res: Option<&'a str>)
    ensures
        match res {
            Some(t) => byte_prefix(s@, limit as int) == Some(t@),
            None => byte_prefix(s@, limit as int) is None,
        },
{
    let len: usize = s.as_bytes().len();
    let n: usize = if limit < len {
        limit
    } else {
        len
    };
    if s.is_char_boundary(n) {
        let (head, _tail) = s.split_at(n);
        proof {
            broadcast use vstd::utf8::encode_utf8_decode_utf8;

            assert(decode_utf8(encode_utf8(head@)) == head@);
        }
        Some(head)
    } else {
        None
    }
}

/// A cut text is a beginning of the whole, of at most the given length.
pub proof fn law_byte_prefix(s: Seq<char>, limit: int)
    requires
        byte_prefix(s, limit) is Some,
        0 <= limit,
    ensures
        byte_count(byte_prefix(s, limit)->Some_0) <= limit,
        byte_prefix(s, limit)->Some_0.is_prefix_of(s),
        byte_count(s) <= limit ==> byte_prefix(s, limit) == Some(s),
{
    let bytes = encode_utf8(s);
    let n = if limit < bytes.len() {
        limit
    } else {
        bytes.len() as int
    };
    let head = bytes.subrange(0, n);
    vstd::utf8::encode_utf8_valid_utf8(s);
    vstd::utf8::encode_utf8_decode_utf8(s);
    vstd::utf8::decode_utf8_split(bytes, n);
    vstd::utf8::valid_utf8_split(bytes, n);
    vstd::utf8::decode_utf8_encode_utf8(head);
    if byte_count(s) <= limit {
        assert(head =~= bytes);
    }
}

/// A name with the text around it.
#[derive(Debug)]
pub struct NamedContext {
    pub name: String,
    pub context: String,
}

impl View for NamedContext {
    type V = (Seq<char>, Seq<char>);

    open spec fn view(&self) -> (Seq<char>, Seq<char>) {
        (self.name@, self.context@)
    }
}

impl Keyed for NamedContext {
    type Held = Seq<char>;

    fn key(&self) -> (res: &str) {
        self.name.as_str()
    }
}

/// A context with one more memory: as long as it is short, the beginning of the
/// memory is added, up to the limit.
pub open spec fn extended(context: Seq<char>, content: Seq<char>) -> Option<Seq<char>> {
    if byte_count(context) < CONTEXT_START_BYTES {
        let open = context + " | "@;
        match byte_prefix(content, CONTEXT_LIMIT_BYTES - byte_count(open)) {
            Some(head) => Some(open + head),
            None => None,
        }
    } else {
        Some(context)
    }
}

/// The contexts with one more memory; none where a cut is inside a character.
pub open spec fn with_mention(
    map: Seq<(Seq<char>, Seq<char>)>,
    name: Seq<char>,
    content: Seq<char>,
) -> Option<Seq<(Seq<char>, Seq<char>)>> {
    match key_index(map, name) {
        Some(i) => match extended(map[i].1, content) {
            Some(context) => Some(map.update(i, (name, context))),
            None => None,
        },
        None => match byte_prefix(content, CONTEXT_START_BYTES as int) {
            Some(context) => Some(map.push((name, context))),
            None => None,
        },
    }
}

/// The contexts of the entities, by the name in the first `entity:` tag of each
/// memory; none where a cut is inside a character.
pub open spec fn contexts_of(memories: Seq<MemoryView>) -> Option<Seq<(Seq<char>, Seq<char>)>>
    decreases memories.len(),
{
    if memories.len() == 0 {
        Some(Seq::empty())
    } else {
        match contexts_of(memories.drop_last()) {
            None => None,
            Some(map) => match first_after(memories.last().tags, "entity:"@) {
                Some(raw) => with_mention(map, entity_name(raw), memories.last().content),
                None => Some(map),
            },
        }
    }
}

proof fn lemma_contexts_prefix(memories: Seq<MemoryView>, n: int)
    requires
        0 <= n <= memories.len(),
        contexts_of(memories.take(n)) is None,
    ensures
        contexts_of(memories) is None,
    decreases memories.len() - n,
{
    if n < memories.len() {
        assert(memories.take(n + 1).drop_last() =~= memories.take(n));
        lemma_contexts_prefix(memories, n + 1);
    } else {
        assert(memories.take(n) =~= memories);
    }
}

fn extend_context(context: String, content: &str) -> (res: Option<String>)
    ensures
        match res {
            Some(t) => extended(context@, content@) == Some(t@),
            None => extended(context@, content@) is None,
        },
{
    if byte_len(context.as_str()) < CONTEXT_START_BYTES {
        proof {
            reveal_strlit(" | ");
            lemma_separator(context@);
        }
        let mut open = context;
        open.append(" | ");
        let used: usize = byte_len(open.as_str());
        match cut_bytes(content, CONTEXT_LIMIT_BYTES - used) {
            Some(head) => {
                open.append(head);
                Some(open)
            },
            None => None,
        }
    } else {
        Some(context)
    }
}

proof fn lemma_encode_concat(a: Seq<char>, b: Seq<char>)
    ensures
        encode_utf8(a + b) == encode_utf8(a) + encode_utf8(b),
    decreases a.len(),
{
    if a.len() == 0 {
        assert(a + b =~= b);
        assert(encode_utf8(a) + encode_utf8(b) =~= encode_utf8(b));
    } else {
        lemma_encode_concat(a.drop_first(), b);
        assert((a + b).drop_first() =~= a.drop_first() + b);
        assert(encode_utf8(a + b) =~= encode_utf8(a) + encode_utf8(b));
    }
}

/// The separator adds three bytes.
proof fn lemma_separator(s: Seq<char>)
    ensures
        byte_count(s + " | "@) == byte_count(s) + 3,
{
    reveal_strlit(" | ");
    lemma_encode_concat(s, " | "@);
    assert(vstd::utf8::is_ascii_chars(" | "@));
    vstd::utf8::is_ascii_chars_encode_utf8(" | "@);
}

fn add_mention(map: &mut Vec<NamedContext>, name: String, content: &str) -> (res: bool)
    ensures
        match with_mention(views_of(old(map)@), name@, content@) {
            Some(after) => res && views_of(final(map)@) == after,
            None => !res,
        },
{
    let ghost before = map@;
    let ghost v = views_of(map@);
    proof {
        law_key_index(v, name@);
    }
    match find_key(map, name.as_str()) {
        Some(i) => {
            let slot = map.remove(i);
            assert(slot@ == v[i as int]);
            match extend_context(slot.context, content) {
                Some(context) => {
                    let ghost longer = context@;
                    map.insert(i, NamedContext { name, context });
                    assert(views_of(map@) =~= v.update(i as int, (name@, longer)));
                    true
                },
                None => false,
            }
        },
        None => match cut_bytes(content, CONTEXT_START_BYTES) {
            Some(head) => {
                map.push(NamedContext { name, context: copy_text(head) });
                assert(views_of(map@) =~= v.push((name@, head@)));
                true
            },
            None => false,
        },
    }
}

fn collect_contexts(memories: &Vec<MemoryNode>) -> (res: Option<Vec<NamedContext>>)
    ensures
        match res {
            Some(map) => contexts_of(views_of(memories@)) == Some(views_of(map@)),
            None => contexts_of(views_of(memories@)) is None,
        },
{
    let ghost all = views_of(memories@);
    let mut map: Vec<NamedContext> = Vec::new();
    proof {
        assert(views_of(map@) =~= Seq::empty());
        assert(all.take(0).len() == 0);
    }
    for i in 0..memories.len()
        invariant
            all == views_of(memories@),
            contexts_of(all.take(i as int)) == Some(views_of(map@)),
    {
        let m = &memories[i];
        proof {
            assert(all.take(i + 1).drop_last() =~= all.take(i as int));
            assert(all.take(i + 1).last() == m@);
        }
        if let Some(raw) = first_tag_after(&m.tags, "entity:") {
            if !add_mention(&mut map, normal_name(raw), m.content.as_str()) {
                proof {
                    lemma_contexts_prefix(all, i + 1);
                }
                return None;
            }
        }
    }
    proof {
        assert(all.take(all.len() as int) =~= all);
    }
    Some(map)
}

/// The entity names with the text around them.
pub fn entity_names_with_context(memories: &Vec<MemoryNode>) -> (res: Vec<NamedContext>)
    requires
        contexts_of(views_of(memories@)) is Some,
    ensures
        contexts_of(views_of(memories@)) == Some(views_of(res@)),
{
    match collect_contexts(memories) {
        Some(map) => map,
        None => Vec::new(),
    }
}

/// The entity names with the text around them, none where a context would be cut
/// inside a character.
pub fn try_entity_names_with_context(memories: &Vec<MemoryNode>) -> (res: Option<
    Vec<NamedContext>,
>)
    ensures
        match res {
            Some(map) => contexts_of(views_of(memories@)) == Some(views_of(map@)),
            None => contexts_of(views_of(memories@)) is None,
        },
{
    if collect_contexts(memories).is_some() {
        Some(entity_names_with_context(memories))
    } else {
        None
    }
}

proof fn lemma_extended_bounded(context: Seq<char>, content: Seq<char>)
    requires
        extended(context, content) is Some,
        byte_count(context) <= CONTEXT_LIMIT_BYTES,
    ensures
        byte_count(extended(context, content)->Some_0) <= CONTEXT_LIMIT_BYTES,
{
    if byte_count(context) < CONTEXT_START_BYTES {
        let open = context + " | "@;
        lemma_separator(context);
        let rest = CONTEXT_LIMIT_BYTES - byte_count(open);
        law_byte_prefix(content, rest);
        lemma_encode_concat(open, byte_prefix(content, rest)->Some_0);
    }
}

/// No context is longer than the limit.
pub proof fn law_contexts_bounded(memories: Seq<MemoryView>)
    requires
        contexts_of(memories) is Some,
    ensures
        forall|i: int|
            0 <= i < contexts_of(memories)->Some_0.len() ==> byte_count(
                (#[trigger] contexts_of(memories)->Some_0[i]).1,
            ) <= CONTEXT_LIMIT_BYTES,
    decreases memories.len(),
{
    if memories.len() > 0 {
        law_contexts_bounded(memories.drop_last());
        let map = contexts_of(memories.drop_last())->Some_0;
        let m = memories.last();
        if let Some(raw) = first_after(m.tags, "entity:"@) {
            let name = entity_name(raw);
            law_key_index(map, name);
            match key_index(map, name) {
                Some(i) => {
                    lemma_extended_bounded(map[i].1, m.content);
                },
                None => {
                    law_byte_prefix(m.content, CONTEXT_START_BYTES as int);
                },
            }
        }
    }
}

} // verus!
