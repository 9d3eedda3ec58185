//! Entities across memories: their names, the memories that stand for them, and
//! the links between memories of one entity.
use crate::clock::now_us;
use crate::entity_extraction::{ExtractedEntity, Mention};
use crate::float::Single;
use crate::ids::{fresh_text, is_fresh_text};
use crate::keyed::{find_key, key_index, law_key_index, Keyed};
use crate::memory::{
    plain_edge, EdgeType, EdgeView, MemoryEdge, MemoryId, MemoryNode, MemoryView, Timestamp,
};
use crate::order::{
    law_sort_keeps_items, law_sort_orders, sort_ranked, sorted_texts, stable_sorted, views_of,
    Ranked,
};
use crate::policies::sorted_strings;
use crate::query::{distinct, has_id, law_distinct};
use crate::records::{
    AliasColumns, EntityAlias, EntityColumns, EntityRecord, LinkColumns, MemoryEntityLink,
};
use crate::text::{
    after_prefix, copy_opt, copy_text, has_prefix, lemma_views_push, lower_form, opt_str_view,
    opt_view, same_but_case, starts_with, strip_prefix, text_eq, trim, trimmed, views,
};
use vstd::prelude::*;

verus! {

// ---------------------------------------------------------------------------
// Names
// ---------------------------------------------------------------------------
/// The form in which the names of entities are compared.
pub open spec fn entity_name(raw: Seq<char>) -> Seq<char> {
    trimmed(lower_form(raw))
}

/// Names that differ at most in the case of ASCII letters are the name of one
/// entity.
pub proof fn law_names_ignore_case(a: Seq<char>, b: Seq<char>)
    requires
        same_but_case(a, b),
    ensures
        entity_name(a) == entity_name(b),
{
}

pub(crate) fn normal_name(raw: &str) -> (res: String)
    ensures
        res@ == entity_name(raw@),
{
    let lower = raw.to_lowercase();
    copy_text(trim(lower.as_str()))
}

/// What the first tag with a prefix holds after it.
pub open spec fn first_after(tags: Seq<Seq<char>>, prefix: Seq<char>) -> Option<Seq<char>>
    decreases tags.len(),
{
    if tags.len() == 0 {
        None
    } else {
        match after_prefix(tags[0], prefix) {
            Some(rest) => Some(rest),
            None => first_after(tags.drop_first(), prefix),
        }
    }
}

/// What the first tag with a prefix holds after it.
pub fn first_tag_after<'a>(tags: &'a Vec<String>, prefix: &str) -> (res: Option<&'a str>)
    ensures
        opt_str_view(res) == first_after(views(tags@), prefix@),
{
    let ghost all = views(tags@);
    proof {
        assert(all.skip(0) =~= all);
    }
    for i in 0..tags.len()
        invariant
            all == views(tags@),
            first_after(all, prefix@) == first_after(all.skip(i as int), prefix@),
    {
        proof {
            assert(all.skip(i as int)[0] == tags@[i as int]@);
            assert(all.skip(i as int).drop_first() =~= all.skip(i + 1));
        }
        if let Some(rest) = strip_prefix(tags[i].as_str(), prefix) {
            return Some(rest);
        }
    }
    None
}

/// The names that the tags of a memory give.
pub open spec fn names_in(tags: Seq<Seq<char>>) -> Seq<Seq<char>>
    decreases tags.len(),
{
    if tags.len() == 0 {
        Seq::empty()
    } else {
        let rest = names_in(tags.drop_last());
        match after_prefix(tags.last(), "entity:"@) {
            Some(raw) => rest.push(entity_name(raw)),
            None => rest,
        }
    }
}

/// The names that the tags of some memories give.
pub open spec fn names_in_all(memories: Seq<MemoryView>) -> Seq<Seq<char>>
    decreases memories.len(),
{
    if memories.len() == 0 {
        Seq::empty()
    } else {
        names_in_all(memories.drop_last()) + names_in(memories.last().tags)
    }
}

/// All entity names among the tags of the memories, each once, in order.
pub fn all_entity_names(memories: &Vec<MemoryNode>) -> (res: Vec<String>)
    ensures
        views(res@) == sorted_texts(distinct(names_in_all(views_of(memories@)))),
{
    let ghost all = views_of(memories@);
    let mut names: Vec<String> = Vec::new();
    proof {
        assert(views(names@) =~= names_in_all(all.take(0)));
    }
    for i in 0..memories.len()
        invariant
            all == views_of(memories@),
            views(names@) == names_in_all(all.take(i as int)),
    {
        let tags = &memories[i].tags;
        let ghost own = views(tags@);
        let ghost before = views(names@);
        proof {
            assert(all.take(i + 1).drop_last() =~= all.take(i as int));
            assert(all.take(i + 1).last() == memories@[i as int]@);
            assert(before + names_in(own.take(0)) =~= before);
        }
        for j in 0..tags.len()
            invariant
                own == views(tags@),
                views(names@) == before + names_in(own.take(j as int)),
        {
            proof {
                assert(own.take(j + 1).drop_last() =~= own.take(j as int));
                assert(own.take(j + 1).last() == tags@[j as int]@);
            }
            if let Some(raw) = strip_prefix(tags[j].as_str(), "entity:") {
                let name = normal_name(raw);
                proof {
                    lemma_views_push(names@, name);
                }
                names.push(name);
            }
            assert(views(names@) =~= before + names_in(own.take(j + 1)));
        }
        proof {
            assert(own.take(own.len() as int) =~= own);
        }
    }
    proof {
        assert(all.take(all.len() as int) =~= all);
    }
    sorted_strings(&names)
}

/// Whether a tag begins with a prefix.
pub open spec fn some_tag_starts(tags: Seq<Seq<char>>, prefix: Seq<char>) -> bool {
    exists|i: int| 0 <= i < tags.len() && starts_with(#[trigger] tags[i], prefix)
}

/// Whether a memory stands for an entity.
pub open spec fn is_entity_memory(m: MemoryView) -> bool {
    some_tag_starts(m.tags, "entity:"@)
}

/// Whether a tag begins with a prefix.
pub fn any_tag_starts(tags: &Vec<String>, prefix: &str) -> (res: bool)
    ensures
        res == some_tag_starts(views(tags@), prefix@),
{
    for i in 0..tags.len()
        invariant
            forall|j: int| 0 <= j < i ==> !starts_with(#[trigger] views(tags@)[j], prefix@),
    {
        if has_prefix(tags[i].as_str(), prefix) {
            assert(starts_with(views(tags@)[i as int], prefix@));
            return true;
        }
        assert(views(tags@)[i as int] == tags@[i as int]@);
    }
    false
}

/// The memories that stand for an entity.
pub fn entity_memories(memories: Vec<MemoryNode>) -> (res: Vec<MemoryNode>)
    ensures
        views_of(res@) == views_of(memories@).filter(|m: MemoryView| is_entity_memory(m)),
{
    let ghost all = views_of(memories@);
    let ghost keep = |m: MemoryView| is_entity_memory(m);
    let mut out: Vec<MemoryNode> = Vec::new();
    proof {
        assert(all.take(0).filter(keep) =~= Seq::empty()) by {
            reveal(Seq::filter);
        }
        assert(views_of(out@) =~= Seq::empty());
    }
    for m in it: memories
        invariant
            keep == (|m: MemoryView| is_entity_memory(m)),
            all == views_of(it.seq()),
            views_of(out@) == all.take(it.index() as int).filter(keep),
    {
        let ghost before = out@;
        proof {
            let i = it.index() as int;
            assert(all.take(i + 1) =~= all.take(i).push(m@));
            all.take(i).lemma_filter_push(m@, keep);
        }
        if any_tag_starts(&m.tags, "entity:") {
            assert(keep(m@));
            out.push(m);
            assert(views_of(out@) =~= views_of(before).push(m@));
        } else {
            assert(!keep(m@));
        }
    }
    proof {
        assert(all.take(all.len() as int) =~= all);
    }
    out
}

// ---------------------------------------------------------------------------
// Memories by name
// ---------------------------------------------------------------------------
/// A name with the memories that stand for it.
#[derive(Debug)]
pub struct NamedMemories {
    pub name: String,
    pub ids: Vec<MemoryId>,
}

impl View for NamedMemories {
    type V = (Seq<char>, Seq<MemoryId>);

    open spec fn view(&self) -> (Seq<char>, Seq<MemoryId>) {
        (self.name@, self.ids@)
    }
}

impl Keyed for NamedMemories {
    type Held = Seq<MemoryId>;

    fn key(&self) -> (res: &str) {
        self.name.as_str()
    }
}

/// A map with one more memory under a name.
pub open spec fn with_memory(
    map: Seq<(Seq<char>, Seq<MemoryId>)>,
    name: Seq<char>,
    id: MemoryId,
) -> Seq<(Seq<char>, Seq<MemoryId>)> {
    match key_index(map, name) {
        Some(i) => map.update(i, (name, map[i].1.push(id))),
        None => map.push((name, seq![id])),
    }
}

/// The memories of each entity, by the name in the first `entity:` tag.
pub open spec fn entity_map(memories: Seq<MemoryView>) -> Seq<(Seq<char>, Seq<MemoryId>)>
    decreases memories.len(),
{
    if memories.len() == 0 {
        Seq::empty()
    } else {
        let rest = entity_map(memories.drop_last());
        let m = memories.last();
        match first_after(m.tags, "entity:"@) {
            Some(raw) => with_memory(rest, entity_name(raw), m.id),
            None => rest,
        }
    }
}

/// The memories of each entity. A memory counts for its first `entity:` tag.
pub fn build_entity_memory_map(memories: &Vec<MemoryNode>) -> (res: Vec<NamedMemories>)
    ensures
        views_of(res@) == entity_map(views_of(memories@)),
{
    let ghost all = views_of(memories@);
    let mut map: Vec<NamedMemories> = Vec::new();
    proof {
        assert(views_of(map@) =~= entity_map(all.take(0)));
    }
    for i in 0..memories.len()
        invariant
            all == views_of(memories@),
            views_of(map@) == entity_map(all.take(i as int)),
    {
        let m = &memories[i];
        let ghost before = map@;
        proof {
            assert(all.take(i + 1).drop_last() =~= all.take(i as int));
            assert(all.take(i + 1).last() == m@);
        }
        if let Some(raw) = first_tag_after(&m.tags, "entity:") {
            let name = normal_name(raw);
            proof {
                law_key_index(views_of(before), name@);
            }
            match find_key(&map, name.as_str()) {
                Some(k) => {
                    let mut slot = map.remove(k);
                    let ghost old_slot = slot@;
                    assert(old_slot == views_of(before)[k as int]);
                    slot.ids.push(m.id);
                    map.insert(k, slot);
                    assert(views_of(map@) =~= views_of(before).update(
                        k as int,
                        (name@, old_slot.1.push(m.id)),
                    ));
                },
                None => {
                    let mut ids: Vec<MemoryId> = Vec::new();
                    ids.push(m.id);
                    assert(ids@ =~= seq![m.id]);
                    let slot = NamedMemories { name, ids };
                    map.push(slot);
                    assert(views_of(map@) =~= views_of(before).push(slot@));
                },
            }
        }
    }
    proof {
        assert(all.take(all.len() as int) =~= all);
    }
    map
}

/// The memories under a name.
pub open spec fn memories_of(map: Seq<(Seq<char>, Seq<MemoryId>)>, name: Seq<char>) -> Seq<
    MemoryId,
> {
    match key_index(map, name) {
        Some(i) => map[i].1,
        None => Seq::empty(),
    }
}

/// The memories under several names, one name after another.
pub open spec fn gathered(map: Seq<(Seq<char>, Seq<MemoryId>)>, names: Seq<Seq<char>>) -> Seq<
    MemoryId,
>
    decreases names.len(),
{
    if names.len() == 0 {
        Seq::empty()
    } else {
        gathered(map, names.drop_last()) + memories_of(map, names.last())
    }
}

fn gather_name(map: &Vec<NamedMemories>, name: &str, out: &mut Vec<MemoryId>)
    ensures
        final(out)@ == old(out)@ + memories_of(views_of(map@), name@),
{
    let ghost start = out@;
    match find_key(map, name) {
        Some(k) => {
            let ids = &map[k].ids;
            assert(views_of(map@)[k as int] == map@[k as int]@);
            for i in 0..ids.len()
                invariant
                    out@ == start + ids@.take(i as int),
            {
                out.push(ids[i]);
                assert(out@ =~= start + ids@.take(i + 1));
            }
            assert(ids@.take(ids.len() as int) =~= ids@);
        },
        None => {
            assert(start + memories_of(views_of(map@), name@) =~= start);
        },
    }
}

/// The memories under a name.
pub fn ids_under(map: &Vec<NamedMemories>, name: &str) -> (res: Vec<MemoryId>)
    ensures
        res@ == memories_of(views_of(map@), name@),
{
    let mut out: Vec<MemoryId> = Vec::new();
    gather_name(map, name, &mut out);
    assert(out@ =~= memories_of(views_of(map@), name@));
    out
}

impl View for MemoryId {
    type V = MemoryId;

    open spec fn view(&self) -> MemoryId {
        *self
    }
}

impl Ranked for MemoryId {
    open spec fn ranks_before(a: MemoryId, b: MemoryId) -> bool {
        a.value < b.value
    }

    fn is_before(&self, other: &Self) -> (res: bool) {
        self.value < other.value
    }
}

/// Identities in ascending order, each once.
pub open spec fn ascending(ids: Seq<MemoryId>) -> Seq<MemoryId> {
    stable_sorted(distinct(ids), |a: MemoryId, b: MemoryId| MemoryId::ranks_before(a, b))
}

/// Identities in ascending order, each once.
pub fn sort_unique(ids: Vec<MemoryId>) -> (res: Vec<MemoryId>)
    ensures
        res@ == ascending(ids@),
{
    let mut unique: Vec<MemoryId> = Vec::new();
    proof {
        assert(unique@ =~= distinct(ids@.take(0)));
    }
    for i in 0..ids.len()
        invariant
            unique@ == distinct(ids@.take(i as int)),
    {
        proof {
            assert(ids@.take(i + 1).drop_last() =~= ids@.take(i as int));
        }
        if !has_id(&unique, ids[i]) {
            unique.push(ids[i]);
        }
    }
    proof {
        assert(ids@.take(ids.len() as int) =~= ids@);
        assert(views_of(unique@) =~= unique@);
    }
    let sorted = sort_ranked(unique);
    proof {
        assert(views_of(sorted@) =~= sorted@);
    }
    sorted
}

/// Ascending identities are those that were given, each strictly greater than
/// the one before.
pub proof fn law_ascending(ids: Seq<MemoryId>)
    ensures
        forall|id: MemoryId| #[trigger] ascending(ids).contains(id) <==> ids.contains(id),
        forall|i: int, j: int|
            0 <= i < j < ascending(ids).len() ==> (#[trigger] ascending(ids)[i]).value < (
            #[trigger] ascending(ids)[j]).value,
{
    let rank = |a: MemoryId, b: MemoryId| MemoryId::ranks_before(a, b);
    let unique = distinct(ids);
    let out = ascending(ids);
    law_distinct(ids);
    law_sort_keeps_items(unique, rank);
    law_sort_orders(unique, rank);
    assert(unique.to_multiset() == out.to_multiset());
    unique.lemma_multiset_has_no_duplicates();
    out.lemma_multiset_has_no_duplicates_conv();
    assert forall|i: int, j: int| 0 <= i < j < out.len() implies (#[trigger] out[i]).value < (
    #[trigger] out[j]).value by {
        assert(!rank(out[j], out[i]));
        assert(out[i] != out[j]);
    }
}

/// The names of a merge group, in the form in which they are looked up.
pub open spec fn group_names(canonical: Seq<char>, aliases: Seq<Seq<char>>) -> Seq<Seq<char>> {
    seq![lower_form(canonical)] + aliases.map_values(|a: Seq<char>| lower_form(a))
}

/// The memories of a merge group, in ascending order.
pub fn group_members(map: &Vec<NamedMemories>, canonical: &str, aliases: &Vec<String>) -> (res: Vec<
    MemoryId,
>)
    ensures
        res@ == ascending(
            gathered(views_of(map@), group_names(canonical@, views(aliases@))),
        ),
{
    let ghost m = views_of(map@);
    let ghost all = views(aliases@);
    let ghost names = group_names(canonical@, all);
    let mut ids: Vec<MemoryId> = Vec::new();
    gather_name(map, canonical.to_lowercase().as_str(), &mut ids);
    proof {
        let one = names.take(1);
        assert(one.drop_last() =~= Seq::empty());
        assert(one.last() == lower_form(canonical@));
        assert(gathered(m, one.drop_last()) =~= Seq::empty());
        assert(ids@ =~= gathered(m, one));
    }
    for i in 0..aliases.len()
        invariant
            m == views_of(map@),
            all == views(aliases@),
            names == group_names(canonical@, all),
            ids@ == gathered(m, names.take(i + 1)),
    {
        proof {
            assert(names.take(i + 2).drop_last() =~= names.take(i + 1));
            assert(names.take(i + 2).last() == lower_form(aliases@[i as int]@));
        }
        gather_name(map, aliases[i].as_str().to_lowercase().as_str(), &mut ids);
    }
    proof {
        assert(names.take(names.len() as int) =~= names);
    }
    sort_unique(ids)
}

/// The aliases of a merge group that differ from its canonical name.
pub open spec fn other_names(canonical: Seq<char>, aliases: Seq<Seq<char>>) -> Seq<Seq<char>> {
    aliases.filter(|a: Seq<char>| lower_form(a) != lower_form(canonical))
}

/// What differs from the canonical name at most in the case of ASCII letters is no
/// alias of it.
pub proof fn law_case_makes_no_alias(canonical: Seq<char>, aliases: Seq<Seq<char>>, a: Seq<char>)
    requires
        same_but_case(a, canonical),
    ensures
        !other_names(canonical, aliases).contains(a),
{
    let keep = |x: Seq<char>| lower_form(x) != lower_form(canonical);
    if other_names(canonical, aliases).contains(a) {
        let i = choose|i: int| 0 <= i < aliases.filter(keep).len() && aliases.filter(keep)[i] == a;
        aliases.lemma_filter_pred(keep, i);
    }
}

/// The aliases of a merge group that differ from its canonical name by more
/// than case.
pub fn learned_aliases(canonical: &str, aliases: &Vec<String>) -> (res: Vec<String>)
    ensures
        views(res@) == other_names(canonical@, views(aliases@)),
{
    let ghost all = views(aliases@);
    let ghost keep = |a: Seq<char>| lower_form(a) != lower_form(canonical@);
    let own = canonical.to_lowercase();
    let mut out: Vec<String> = Vec::new();
    proof {
        assert(all.take(0).filter(keep) =~= Seq::empty()) by {
            reveal(Seq::filter);
        }
        assert(views(out@) =~= Seq::empty());
    }
    for i in 0..aliases.len()
        invariant
            all == views(aliases@),
            keep == (|a: Seq<char>| lower_form(a) != lower_form(canonical@)),
            own@ == lower_form(canonical@),
            views(out@) == all.take(i as int).filter(keep),
    {
        proof {
            assert(all.take(i + 1) =~= all.take(i as int).push(all[i as int]));
            all.take(i as int).lemma_filter_push(all[i as int], keep);
        }
        let alias = aliases[i].as_str();
        if !text_eq(alias.to_lowercase().as_str(), own.as_str()) {
            let item = copy_text(alias);
            proof {
                lemma_views_push(out@, item);
            }
            out.push(item);
        }
    }
    proof {
        assert(all.take(all.len() as int) =~= all);
    }
    out
}

// ---------------------------------------------------------------------------
// Links between memories of one entity
// ---------------------------------------------------------------------------
/// Whether an edge links two memories of one entity.
pub open spec fn is_entity_link(e: EdgeView) -> bool {
    e.edge_type == EdgeType::Related && e.label is Some && starts_with(
        e.label->0,
        "entity_link:"@,
    )
}

/// Whether two memories are linked as memories of one entity.
pub open spec fn linked(edges: Seq<EdgeView>, a: MemoryId, b: MemoryId) -> bool {
    exists|i: int|
        0 <= i < edges.len() && (#[trigger] edges[i]).source == a && edges[i].target == b
            && is_entity_link(edges[i])
}

fn is_linked(edges: &Vec<MemoryEdge>, a: MemoryId, b: MemoryId) -> (res: bool)
    ensures
        res == linked(views_of(edges@), a, b),
{
    let ghost all = views_of(edges@);
    for i in 0..edges.len()
        invariant
            all == views_of(edges@),
            forall|j: int|
                0 <= j < i ==> !((#[trigger] all[j]).source == a && all[j].target == b
                    && is_entity_link(all[j])),
    {
        let e = &edges[i];
        assert(all[i as int] == e@);
        if e.source == a && e.target == b && e.edge_type == EdgeType::Related {
            if let Some(label) = &e.label {
                if has_prefix(label.as_str(), "entity_link:") {
                    assert(is_entity_link(all[i as int]));
                    return true;
                }
            }
        }
    }
    false
}

/// The label of the links of an entity.
pub open spec fn link_label(canonical: Seq<char>) -> Seq<char> {
    "entity_link:"@ + canonical
}

/// The edge that links two memories of an entity.
pub open spec fn link_edge(
    a: MemoryId,
    b: MemoryId,
    canonical: Seq<char>,
    weight: Single,
    now: Timestamp,
) -> EdgeView {
    plain_edge(a, b, EdgeType::Related, weight, now, Some(link_label(canonical)))
}

/// The links from one memory to the first `n` of the later ones that it is not
/// linked to yet.
pub open spec fn links_from(
    ids: Seq<MemoryId>,
    edges: Seq<EdgeView>,
    i: int,
    n: nat,
    canonical: Seq<char>,
    weight: Single,
    now: Timestamp,
) -> Seq<EdgeView>
    decreases n,
{
    if n == 0 {
        Seq::empty()
    } else {
        let rest = links_from(ids, edges, i, (n - 1) as nat, canonical, weight, now);
        let b = ids[i + n];
        if linked(edges, ids[i], b) {
            rest
        } else {
            rest.push(link_edge(ids[i], b, canonical, weight, now))
        }
    }
}

/// The links from the first `k` memories to later ones.
pub open spec fn links_among(
    ids: Seq<MemoryId>,
    edges: Seq<EdgeView>,
    k: nat,
    canonical: Seq<char>,
    weight: Single,
    now: Timestamp,
) -> Seq<EdgeView>
    decreases k,
{
    if k == 0 {
        Seq::empty()
    } else {
        links_among(ids, edges, (k - 1) as nat, canonical, weight, now) + links_from(
            ids,
            edges,
            k - 1,
            (ids.len() - k) as nat,
            canonical,
            weight,
            now,
        )
    }
}

/// The links that are missing among the memories of an entity.
pub open spec fn missing_links(
    ids: Seq<MemoryId>,
    edges: Seq<EdgeView>,
    canonical: Seq<char>,
    weight: Single,
    now: Timestamp,
) -> Seq<EdgeView> {
    links_among(ids, edges, ids.len(), canonical, weight, now)
}

/// Plans the links that are missing among the memories of an entity: one for
/// each pair that is not linked yet, from the earlier to the later memory.
pub fn plan_links(
    ids: &Vec<MemoryId>,
    edges: &Vec<MemoryEdge>,
    canonical: &str,
    weight: Single,
    now: Timestamp,
) -> (res: Vec<MemoryEdge>)
    ensures
        views_of(res@) == missing_links(ids@, views_of(edges@), canonical@, weight, now),
{
    let ghost es = views_of(edges@);
    let mut out: Vec<MemoryEdge> = Vec::new();
    proof {
        assert(views_of(out@) =~= links_among(ids@, es, 0, canonical@, weight, now));
    }
    for i in 0..ids.len()
        invariant
            es == views_of(edges@),
            views_of(out@) == links_among(ids@, es, i as nat, canonical@, weight, now),
    {
        let ghost base = views_of(out@);
        let rest: usize = ids.len() - i - 1;
        proof {
            assert(base + links_from(ids@, es, i as int, 0, canonical@, weight, now) =~= base);
        }
        for n in 0..rest
            invariant
                es == views_of(edges@),
                i + rest + 1 == ids.len(),
                views_of(out@) == base + links_from(
                    ids@,
                    es,
                    i as int,
                    n as nat,
                    canonical@,
                    weight,
                    now,
                ),
        {
            let a = ids[i];
            let b = ids[i + n + 1];
            let ghost before = out@;
            if !is_linked(edges, a, b) {
                let mut label = copy_text("entity_link:");
                label.append(canonical);
                let edge = MemoryEdge::plain(
                    a,
                    b,
                    EdgeType::Related,
                    weight,
                    now,
                    Some(label),
                );
                out.push(edge);
                assert(views_of(out@) =~= views_of(before).push(edge@));
            }
            assert(views_of(out@) =~= base + links_from(
                ids@,
                es,
                i as int,
                (n + 1) as nat,
                canonical@,
                weight,
                now,
            ));
        }
    }
    out
}

proof fn lemma_links_from_covers(
    ids: Seq<MemoryId>,
    edges: Seq<EdgeView>,
    i: int,
    n: nat,
    canonical: Seq<char>,
    weight: Single,
    now: Timestamp,
    j: int,
)
    requires
        1 <= j <= n,
        !linked(edges, ids[i], ids[i + j]),
    ensures
        links_from(ids, edges, i, n, canonical, weight, now).contains(
            link_edge(ids[i], ids[i + j], canonical, weight, now),
        ),
    decreases n,
{
    let rest = links_from(ids, edges, i, (n - 1) as nat, canonical, weight, now);
    let out = links_from(ids, edges, i, n, canonical, weight, now);
    let e = link_edge(ids[i], ids[i + j], canonical, weight, now);
    if j < n {
        lemma_links_from_covers(ids, edges, i, (n - 1) as nat, canonical, weight, now, j);
        let k = choose|k: int| 0 <= k < rest.len() && rest[k] == e;
        assert(out[k] == e);
    } else {
        assert(out[rest.len() as int] == e);
    }
}

proof fn lemma_links_among_covers(
    ids: Seq<MemoryId>,
    edges: Seq<EdgeView>,
    k: nat,
    canonical: Seq<char>,
    weight: Single,
    now: Timestamp,
    i: int,
    j: int,
)
    requires
        0 <= i < k <= ids.len(),
        i < j < ids.len(),
        !linked(edges, ids[i], ids[j]),
    ensures
        links_among(ids, edges, k, canonical, weight, now).contains(
            link_edge(ids[i], ids[j], canonical, weight, now),
        ),
    decreases k,
{
    let head = links_among(ids, edges, (k - 1) as nat, canonical, weight, now);
    let tail = links_from(ids, edges, k - 1, (ids.len() - k) as nat, canonical, weight, now);
    let e = link_edge(ids[i], ids[j], canonical, weight, now);
    if i < k - 1 {
        lemma_links_among_covers(
            ids,
            edges,
            (k - 1) as nat,
            canonical,
            weight,
            now,
            i,
            j,
        );
        let m = choose|m: int| 0 <= m < head.len() && head[m] == e;
        assert((head + tail)[m] == e);
    } else {
        lemma_links_from_covers(
            ids,
            edges,
            i,
            (ids.len() - k) as nat,
            canonical,
            weight,
            now,
            j - i,
        );
        let m = choose|m: int| 0 <= m < tail.len() && tail[m] == e;
        assert((head + tail)[head.len() + m] == e);
    }
}

proof fn lemma_no_links_from(
    ids: Seq<MemoryId>,
    edges: Seq<EdgeView>,
    i: int,
    n: nat,
    canonical: Seq<char>,
    weight: Single,
    now: Timestamp,
)
    requires
        forall|j: int| 1 <= j <= n ==> linked(edges, ids[i], #[trigger] ids[i + j]),
    ensures
        links_from(ids, edges, i, n, canonical, weight, now) == Seq::<EdgeView>::empty(),
    decreases n,
{
    if n > 0 {
        lemma_no_links_from(ids, edges, i, (n - 1) as nat, canonical, weight, now);
        assert(linked(edges, ids[i], ids[i + n]));
    }
}

proof fn lemma_no_links_among(
    ids: Seq<MemoryId>,
    edges: Seq<EdgeView>,
    k: nat,
    canonical: Seq<char>,
    weight: Single,
    now: Timestamp,
)
    requires
        k <= ids.len(),
        forall|i: int, j: int|
            0 <= i < j < ids.len() ==> linked(edges, #[trigger] ids[i], #[trigger] ids[j]),
    ensures
        links_among(ids, edges, k, canonical, weight, now) == Seq::<EdgeView>::empty(),
    decreases k,
{
    if k > 0 {
        lemma_no_links_among(ids, edges, (k - 1) as nat, canonical, weight, now);
        assert forall|j: int| 1 <= j <= ids.len() - k implies linked(
            edges,
            ids[k - 1],
            #[trigger] ids[k - 1 + j],
        ) by {
            assert(linked(edges, ids[k - 1], ids[k - 1 + j]));
        }
        lemma_no_links_from(
            ids,
            edges,
            k - 1,
            (ids.len() - k) as nat,
            canonical,
            weight,
            now,
        );
    }
}

/// Once the planned links are added, and whatever else is, every pair of memories
/// of the entity is linked, and planning again, with whatever name, weight and
/// time, finds nothing to add.
pub proof fn law_linking_is_complete(
    ids: Seq<MemoryId>,
    edges: Seq<EdgeView>,
    canonical: Seq<char>,
    weight: Single,
    now: Timestamp,
    after: Seq<EdgeView>,
    later_name: Seq<char>,
    later_weight: Single,
    later: Timestamp,
)
    requires
        forall|e: EdgeView| edges.contains(e) ==> #[trigger] after.contains(e),
        forall|e: EdgeView|
            missing_links(ids, edges, canonical, weight, now).contains(e)
                ==> #[trigger] after.contains(e),
    ensures
        forall|i: int, j: int|
            0 <= i < j < ids.len() ==> linked(after, #[trigger] ids[i], #[trigger] ids[j]),
        missing_links(ids, after, later_name, later_weight, later) == Seq::<EdgeView>::empty(),
{
    let planned = missing_links(ids, edges, canonical, weight, now);
    let label = link_label(canonical);
    assert(starts_with(label, "entity_link:"@)) by {
        assert(label.subrange(0, "entity_link:"@.len() as int) =~= "entity_link:"@);
    }
    assert forall|i: int, j: int| 0 <= i < j < ids.len() implies linked(
        after,
        #[trigger] ids[i],
        #[trigger] ids[j],
    ) by {
        let e = if linked(edges, ids[i], ids[j]) {
            let k = choose|k: int|
                0 <= k < edges.len() && (#[trigger] edges[k]).source == ids[i] && edges[k].target
                    == ids[j] && is_entity_link(edges[k]);
            assert(edges.contains(edges[k]));
            edges[k]
        } else {
            lemma_links_among_covers(
                ids,
                edges,
                ids.len(),
                canonical,
                weight,
                now,
                i,
                j,
            );
            let e = link_edge(ids[i], ids[j], canonical, weight, now);
            assert(planned.contains(e));
            e
        };
        assert(after.contains(e));
        let n = choose|n: int| 0 <= n < after.len() && after[n] == e;
        assert(after[n].source == ids[i]);
    }
    lemma_no_links_among(ids, after, ids.len(), later_name, later_weight, later);
}

/// Result of a single entity linking run.
#[derive(Clone, Copy, Debug, PartialEq, Eq, Structural)]
pub struct EntityLinkResult {
    /// Number of entity pairs linked with Related edges.
    pub linked: usize,
    /// Number of entity pairs tagged as ambiguous.
    pub ambiguous: usize,
    /// Number of edges created.
    pub edges_created: usize,
}

impl EntityLinkResult {
    /// A run that has done nothing yet.
    pub fn none() -> (res: Self)
        ensures
            res == (EntityLinkResult { linked: 0, ambiguous: 0, edges_created: 0 }),
    {
        EntityLinkResult { linked: 0, ambiguous: 0, edges_created: 0 }
    }

    /// Counts one group: the links that were planned and those that were
    /// written.
    pub fn count(&mut self, planned: usize, written: usize)
        requires
            old(self).linked + planned <= usize::MAX,
            old(self).edges_created + written <= usize::MAX,
        ensures
            *final(self) == (EntityLinkResult {
                linked: (old(self).linked + planned) as usize,
                ambiguous: old(self).ambiguous,
                edges_created: (old(self).edges_created + written) as usize,
            }),
    {
        self.linked = self.linked + planned;
        self.edges_created = self.edges_created + written;
    }
}

// ---------------------------------------------------------------------------
// Groups
// ---------------------------------------------------------------------------
/// A confirmed entity resolution from an external resolver.
#[derive(Debug)]
pub struct EntityLinkResolution {
    /// The canonical entity name decided by the resolver.
    pub canonical: String,
    /// All aliases that map to this canonical name.
    pub aliases: Vec<String>,
    /// Confidence in this resolution (0.0 to 1.0).
    pub confidence: Single,
}

/// A pair of entity names that are confirmed to be different entities.
#[derive(Debug)]
pub struct EntitySeparation {
    pub name_a: String,
    pub name_b: String,
}

/// What is done for one group of names of an entity.
#[derive(Debug)]
pub struct GroupPlan {
    /// The aliases to remember for the canonical name.
    pub learned: Vec<String>,
    /// The memories of the group, in ascending order.
    pub members: Vec<MemoryId>,
    /// The links to add, in order.
    pub links: Vec<MemoryEdge>,
}

/// Plans one confirmed group: what the resolver remembers, and the links
/// between the memories of the group that are missing from `edges`.
pub fn apply_entity_link_resolution(
    map: &Vec<NamedMemories>,
    group: &EntityLinkResolution,
    edges: &Vec<MemoryEdge>,
    now: Timestamp,
) -> (res: GroupPlan)
    ensures
        views(res.learned@) == other_names(group.canonical@, views(group.aliases@)),
        res.members@ == ascending(
            gathered(
                views_of(map@),
                group_names(group.canonical@, views(group.aliases@)),
            ),
        ),
        views_of(res.links@) == missing_links(
            res.members@,
            views_of(edges@),
            lower_form(group.canonical@),
            group.confidence,
            now,
        ),
{
    let learned = learned_aliases(group.canonical.as_str(), &group.aliases);
    let members = group_members(map, group.canonical.as_str(), &group.aliases);
    let label = group.canonical.as_str().to_lowercase();
    let links = plan_links(&members, edges, label.as_str(), group.confidence, now);
    GroupPlan { learned, members, links }
}

/// Names that resolve to one canonical name.
#[derive(Debug)]
pub struct CanonicalGroup {
    pub canonical: String,
    pub names: Vec<String>,
}

impl View for CanonicalGroup {
    type V = (Seq<char>, Seq<Seq<char>>);

    open spec fn view(&self) -> (Seq<char>, Seq<Seq<char>>) {
        (self.canonical@, views(self.names@))
    }
}

impl Keyed for CanonicalGroup {
    type Held = Seq<Seq<char>>;

    fn key(&self) -> (res: &str) {
        self.canonical.as_str()
    }
}

/// The groups with one more name.
pub open spec fn with_name(
    groups: Seq<(Seq<char>, Seq<Seq<char>>)>,
    canonical: Seq<char>,
    name: Seq<char>,
) -> Seq<(Seq<char>, Seq<Seq<char>>)> {
    match key_index(groups, canonical) {
        Some(i) => groups.update(i, (canonical, groups[i].1.push(name))),
        None => groups.push((canonical, seq![name])),
    }
}

/// The names that resolve to another one, grouped by what they resolve to. A
/// name without a resolution stands for itself and belongs to no group.
pub open spec fn grouped(
    names: Seq<Seq<char>>,
    resolved: Seq<Option<Seq<char>>>,
) -> Seq<(Seq<char>, Seq<Seq<char>>)>
    recommends
        names.len() == resolved.len(),
    decreases names.len(),
{
    if names.len() == 0 {
        Seq::empty()
    } else {
        let rest = grouped(names.drop_last(), resolved.drop_last());
        match resolved.last() {
            Some(canonical) => with_name(rest, canonical, names.last()),
            None => rest,
        }
    }
}

/// Groups the names of a map by what they resolve to.
pub fn canonical_groups(map: &Vec<NamedMemories>, resolved: &Vec<Option<String>>) -> (res: Vec<
    CanonicalGroup,
>)
    requires
        map@.len() == resolved@.len(),
    ensures
        views_of(res@) == grouped(
            views_of(map@).map_values(|e: (Seq<char>, Seq<MemoryId>)| e.0),
            crate::search::opt_views(resolved@),
        ),
{
    let ghost names = views_of(map@).map_values(|e: (Seq<char>, Seq<MemoryId>)| e.0);
    let ghost known = crate::search::opt_views(resolved@);
    let mut groups: Vec<CanonicalGroup> = Vec::new();
    proof {
        assert(views_of(groups@) =~= grouped(names.take(0), known.take(0)));
    }
    for i in 0..map.len()
        invariant
            map@.len() == resolved@.len(),
            names == views_of(map@).map_values(|e: (Seq<char>, Seq<MemoryId>)| e.0),
            known == crate::search::opt_views(resolved@),
            views_of(groups@) == grouped(names.take(i as int), known.take(i as int)),
    {
        let ghost before = groups@;
        proof {
            assert(names.take(i + 1).drop_last() =~= names.take(i as int));
            assert(known.take(i + 1).drop_last() =~= known.take(i as int));
            assert(names.take(i + 1).last() == map@[i as int].name@);
            assert(known.take(i + 1).last() == opt_view(resolved@[i as int]));
        }
        if let Some(canonical) = &resolved[i] {
            let name = copy_text(map[i].name.as_str());
            proof {
                law_key_index(views_of(before), canonical@);
            }
            match find_key(&groups, canonical.as_str()) {
                Some(k) => {
                    let mut slot = groups.remove(k);
                    let ghost old_slot = slot@;
                    assert(old_slot == views_of(before)[k as int]);
                    proof {
                        lemma_views_push(slot.names@, name);
                    }
                    slot.names.push(name);
                    groups.insert(k, slot);
                    assert(views_of(groups@) =~= views_of(before).update(
                        k as int,
                        (canonical@, old_slot.1.push(name@)),
                    ));
                },
                None => {
                    let mut list: Vec<String> = Vec::new();
                    list.push(name);
                    assert(views(list@) =~= seq![name@]);
                    let slot = CanonicalGroup {
                        canonical: copy_text(canonical.as_str()),
                        names: list,
                    };
                    groups.push(slot);
                    assert(views_of(groups@) =~= views_of(before).push(slot@));
                },
            }
        }
    }
    proof {
        assert(names.take(names.len() as int) =~= names);
        assert(known.take(known.len() as int) =~= known);
    }
    groups
}

/// Plans the links of one group of known names, of full weight. A group with
/// fewer than two memories has none.
pub fn link_known_group(
    map: &Vec<NamedMemories>,
    group: &CanonicalGroup,
    edges: &Vec<MemoryEdge>,
    now: Timestamp,
) -> (res: Vec<MemoryEdge>)
    ensures
        views_of(res@) == missing_links(
            ascending(
                gathered(
                    views_of(map@),
                    views(group.names@).push(group.canonical@),
                ),
            ),
            views_of(edges@),
            group.canonical@,
            Single { bits: 0x3f80_0000 },
            now,
        ),
{
    let ghost m = views_of(map@);
    let ghost all = views(group.names@);
    let mut ids: Vec<MemoryId> = Vec::new();
    proof {
        assert(ids@ =~= gathered(m, all.take(0)));
    }
    for i in 0..group.names.len()
        invariant
            m == views_of(map@),
            all == views(group.names@),
            ids@ == gathered(m, all.take(i as int)),
    {
        proof {
            assert(all.take(i + 1).drop_last() =~= all.take(i as int));
            assert(all.take(i + 1).last() == group.names@[i as int]@);
        }
        gather_name(map, group.names[i].as_str(), &mut ids);
    }
    gather_name(map, group.canonical.as_str(), &mut ids);
    proof {
        assert(all.take(all.len() as int) =~= all);
        assert(all.push(group.canonical@).drop_last() =~= all);
    }
    let members = sort_unique(ids);
    plan_links(&members, edges, group.canonical.as_str(), Single { bits: 0x3f80_0000 }, now)
}

// ---------------------------------------------------------------------------
// Linking a memory to its entities
// ---------------------------------------------------------------------------
/// What is written for the entities that a memory names.
#[derive(Debug)]
pub struct EntityBundle {
    pub entities: Vec<EntityRecord>,
    pub aliases: Vec<EntityAlias>,
    pub links: Vec<MemoryEntityLink>,
}

/// The entity of a mention: the known one, at least as confident as the
/// mention, or a new one.
pub open spec fn entity_for(
    m: Mention,
    existing: Option<EntityColumns>,
    id: Seq<char>,
    now: Timestamp,
) -> EntityColumns {
    match existing {
        Some(e) => EntityColumns {
            confidence: e.confidence.larger(m.confidence),
            updated_at: now,
            attributes_json: "{}"@,
            ..e
        },
        None => EntityColumns {
            entity_id: id,
            entity_type: m.entity_type,
            canonical: m.canonical,
            attributes_json: "{}"@,
            confidence: m.confidence,
            created_at: now,
            updated_at: now,
        },
    }
}

/// The entities of some mentions.
pub open spec fn entities_for(
    mentions: Seq<Mention>,
    existing: Seq<Option<EntityColumns>>,
    ids: Seq<Seq<char>>,
    now: Timestamp,
) -> Seq<EntityColumns> {
    Seq::new(mentions.len(), |i: int| entity_for(mentions[i], existing[i], ids[i], now))
}

/// The aliases of one mention.
pub open spec fn aliases_of_mention(m: Mention, entity_id: Seq<char>) -> Seq<AliasColumns> {
    m.aliases.map_values(
        |a: Seq<char>|
            AliasColumns {
                entity_id,
                alias: a,
                source: Some("surface_linker"@),
                confidence: m.confidence,
            },
    )
}

/// The aliases of some mentions.
pub open spec fn aliases_of_mentions(
    mentions: Seq<Mention>,
    entities: Seq<EntityColumns>,
) -> Seq<AliasColumns>
    decreases mentions.len(),
{
    if mentions.len() == 0 {
        Seq::empty()
    } else {
        aliases_of_mentions(mentions.drop_last(), entities) + aliases_of_mention(
            mentions.last(),
            entities[mentions.len() - 1].entity_id,
        )
    }
}

/// The link of a memory to the entity of a mention; the role is `mentioned`
/// where the mention has none.
pub open spec fn link_for(memory_id: MemoryId, m: Mention, entity_id: Seq<char>) -> LinkColumns {
    LinkColumns {
        memory_id,
        entity_id,
        role: match m.role {
            Some(r) => Some(r),
            None => Some("mentioned"@),
        },
        confidence: m.confidence,
        evidence: m.evidence,
    }
}

/// The links of a memory to the entities of its mentions.
pub open spec fn links_for(
    memory_id: MemoryId,
    mentions: Seq<Mention>,
    entities: Seq<EntityColumns>,
) -> Seq<LinkColumns> {
    Seq::new(mentions.len(), |i: int| link_for(memory_id, mentions[i], entities[i].entity_id))
}

pub open spec fn opt_entities(existing: Seq<Option<EntityRecord>>) -> Seq<Option<EntityColumns>> {
    existing.map_values(
        |e: Option<EntityRecord>|
            match e {
                Some(r) => Some(r@),
                None => None,
            },
    )
}

/// Whether a bundle is what the mentions of a memory call for.
pub open spec fn is_bundle(
    b: EntityBundle,
    memory_id: MemoryId,
    mentions: Seq<Mention>,
    existing: Seq<Option<EntityColumns>>,
    ids: Seq<Seq<char>>,
    now: Timestamp,
) -> bool {
    let entities = entities_for(mentions, existing, ids, now);
    &&& views_of(b.entities@) == entities
    &&& views_of(b.aliases@) == aliases_of_mentions(mentions, entities)
    &&& views_of(b.links@) == links_for(memory_id, mentions, entities)
}

/// The entities, aliases and links that the mentions of a memory call for.
/// `existing` holds for each mention the stored entity of its type and name, if
/// any; `ids` holds for each mention the identity that a new entity gets.
pub fn link_mentions(
    memory_id: MemoryId,
    extracted: &Vec<ExtractedEntity>,
    existing: Vec<Option<EntityRecord>>,
    ids: Vec<String>,
    now: Timestamp,
) -> (res: EntityBundle)
    requires
        extracted@.len() == existing@.len(),
        extracted@.len() == ids@.len(),
    ensures
        is_bundle(
            res,
            memory_id,
            views_of(extracted@),
            opt_entities(existing@),
            views(ids@),
            now,
        ),
{
    let ghost mentions = views_of(extracted@);
    let ghost known = opt_entities(existing@);
    let ghost texts = views(ids@);
    let ghost all = entities_for(mentions, known, texts, now);
    let mut entities: Vec<EntityRecord> = Vec::new();
    let mut aliases: Vec<EntityAlias> = Vec::new();
    let mut links: Vec<MemoryEntityLink> = Vec::new();
    proof {
        assert(views_of(entities@) =~= all.take(0));
        assert(views_of(aliases@) =~= aliases_of_mentions(mentions.take(0), all));
        assert(views_of(links@) =~= links_for(memory_id, mentions, all).take(0));
    }
    let n: usize = extracted.len();
    let mut i: usize = 0;
    for e in it: existing
        invariant
            n == extracted@.len(),
            extracted@.len() == ids@.len(),
            extracted@.len() == it.seq().len(),
            i == it.index(),
            mentions == views_of(extracted@),
            known == opt_entities(it.seq()),
            texts == views(ids@),
            all == entities_for(mentions, known, texts, now),
            views_of(entities@) == all.take(i as int),
            views_of(aliases@) == aliases_of_mentions(mentions.take(i as int), all),
            views_of(links@) == links_for(memory_id, mentions, all).take(i as int),
    {
        assert(i < n);
        let mention = &extracted[i];
        let ghost old_entities = entities@;
        let ghost old_links = links@;
        proof {
            assert(mentions[i as int] == mention@);
            assert(known[i as int] == match e {
                Some(r) => Some(r@),
                None => None,
            });
            assert(mentions.take(i + 1).drop_last() =~= mentions.take(i as int));
        }
        let entity = match e {
            Some(r) => {
                let mut r2 = r;
                r2.confidence = r2.confidence.max(mention.confidence);
                r2.updated_at = now;
                r2.attributes_json = copy_text("{}");
                r2
            },
            None => {
                let mut r = EntityRecord::at(
                    copy_text(ids[i].as_str()),
                    mention.entity_type.as_str(),
                    mention.canonical.as_str(),
                    now,
                );
                r.confidence = mention.confidence;
                r
            },
        };
        assert(entity@ =~= all[i as int]);
        let ghost so_far = views_of(aliases@);
        let ghost own = mention@.aliases;
        proof {
            assert(so_far + aliases_of_mention(mention@, entity.entity_id@).take(0) =~= so_far);
        }
        for j in 0..mention.aliases.len()
            invariant
                own == views(mention.aliases@),
                own == mention@.aliases,
                views_of(aliases@) == so_far + aliases_of_mention(
                    mention@,
                    entity.entity_id@,
                ).take(j as int),
        {
            let ghost before = aliases@;
            let alias = EntityAlias {
                entity_id: copy_text(entity.entity_id.as_str()),
                alias: copy_text(mention.aliases[j].as_str()),
                source: Some(copy_text("surface_linker")),
                confidence: mention.confidence,
            };
            aliases.push(alias);
            proof {
                let list = aliases_of_mention(mention@, entity.entity_id@);
                assert(own[j as int] == mention.aliases@[j as int]@);
                assert(alias@ =~= list[j as int]);
                assert(views_of(aliases@) =~= views_of(before).push(alias@));
                assert(views_of(aliases@) =~= so_far + list.take(j + 1));
            }
        }
        proof {
            let list = aliases_of_mention(mention@, entity.entity_id@);
            assert(list.take(list.len() as int) =~= list);
        }
        let role = match &mention.role {
            Some(r) => copy_text(r.as_str()),
            None => copy_text("mentioned"),
        };
        let link = MemoryEntityLink {
            memory_id,
            entity_id: copy_text(entity.entity_id.as_str()),
            role: Some(role),
            confidence: mention.confidence,
            evidence: copy_opt(&mention.evidence),
        };
        links.push(link);
        entities.push(entity);
        proof {
            assert(link@ =~= links_for(memory_id, mentions, all)[i as int]);
            assert(views_of(links@) =~= views_of(old_links).push(link@));
            assert(views_of(links@) =~= links_for(memory_id, mentions, all).take(i + 1));
            assert(views_of(entities@) =~= views_of(old_entities).push(entity@));
            assert(views_of(entities@) =~= all.take(i + 1));
        }
        i = i + 1;
    }
    proof {
        assert(all.take(all.len() as int) =~= all);
        assert(mentions.take(mentions.len() as int) =~= mentions);
        let ls = links_for(memory_id, mentions, all);
        assert(ls.take(ls.len() as int) =~= ls);
    }
    EntityBundle { entities, aliases, links }
}

/// Whether every text of a list is the form of a fresh identity.
pub open spec fn all_fresh(ids: Seq<Seq<char>>) -> bool {
    forall|i: int| 0 <= i < ids.len() ==> is_fresh_text(#[trigger] ids[i])
}

/// The entities, aliases and links that the mentions of a memory call for now;
/// new entities get fresh identities.
pub fn persist_extracted_entities(
    memory_id: MemoryId,
    extracted: &Vec<ExtractedEntity>,
    existing: Vec<Option<EntityRecord>>,
) -> (res: EntityBundle)
    requires
        extracted@.len() == existing@.len(),
    ensures
        exists|ids: Seq<Seq<char>>, now: Timestamp|
            all_fresh(ids) && #[trigger] is_bundle(
                res,
                memory_id,
                views_of(extracted@),
                opt_entities(existing@),
                ids,
                now,
            ),
{
    let now: Timestamp = now_us();
    let mut ids: Vec<String> = Vec::new();
    for i in 0..extracted.len()
        invariant
            ids@.len() == i,
            all_fresh(views(ids@)),
    {
        let id = fresh_text();
        proof {
            lemma_views_push(ids@, id);
        }
        ids.push(id);
    }
    let ghost texts = views(ids@);
    let res = link_mentions(memory_id, extracted, existing, ids, now);
    assert(all_fresh(texts) && is_bundle(
        res,
        memory_id,
        views_of(extracted@),
        opt_entities(existing@),
        texts,
        now,
    ));
    res
}

/// A known entity never becomes less confident by another mention of it, and
/// keeps its identity and its name.
pub proof fn law_entity_keeps_identity(
    m: Mention,
    e: EntityColumns,
    id: Seq<char>,
    now: Timestamp,
)
    ensures
        ({
            let after = entity_for(m, Some(e), id, now);
            &&& after.entity_id == e.entity_id
            &&& after.canonical == e.canonical
            &&& after.entity_type == e.entity_type
            &&& after.created_at == e.created_at
            &&& !after.confidence.less(e.confidence)
        }),
{
}

} // verus!
