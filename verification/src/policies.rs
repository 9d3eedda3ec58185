//! Policies: corrections, forgetting, decay and archival as durable runs that
//! can be looked at before they are applied.
use crate::entities::{ascending, sort_unique};
use crate::ids::{id_text, uuid_text};
use crate::memory::{MemoryId, MemoryNode, MemoryView};
use crate::order::{sort_ranked, sorted_texts, views_of, Ranked};
use crate::query::{distinct, distinct_texts};
use crate::text::{copy_text, copy_texts, has_text, lemma_views_push, views};
use vstd::prelude::*;

verus! {

/// Whether a forget operation should hide data or physically remove it.
#[derive(Clone, Copy, Debug, PartialEq, Eq, Structural)]
pub enum ForgetMode {
    /// Invalidate memories and derived rows while preserving inspectability.
    Soft,
    /// Delete affected rows and rebuildable projections.
    Hard,
}

impl ForgetMode {
    /// The name of a mode.
    pub open spec fn name(self) -> Seq<char> {
        match self {
            ForgetMode::Soft => "soft"@,
            ForgetMode::Hard => "hard"@,
        }
    }

    /// The name of the mode.
    pub fn as_str(self) -> (res: &'static str)
        ensures
            res@ == self.name(),
    {
        match self {
            ForgetMode::Soft => "soft",
            ForgetMode::Hard => "hard",
        }
    }
}

/// What a forget policy is aimed at.
#[derive(Debug)]
pub enum ForgetScope {
    Memory(MemoryId),
    Entity(String),
    Alias(String),
    Conversation(String),
    Tag(String),
}

/// The mathematical form of a scope: its kind, the name of the value, and the
/// value.
pub open spec fn scope_view(scope: ForgetScope) -> (Seq<char>, Seq<char>, Seq<char>) {
    match scope {
        ForgetScope::Memory(id) => ("memory"@, "memory_id"@, uuid_text(id.value)),
        ForgetScope::Entity(id) => ("entity"@, "entity_id"@, id@),
        ForgetScope::Alias(alias) => ("alias"@, "alias"@, alias@),
        ForgetScope::Conversation(id) => ("conversation"@, "conversation_id"@, id@),
        ForgetScope::Tag(tag) => ("tag"@, "tag"@, tag@),
    }
}

impl ForgetScope {
    /// The kind of the scope, the name of its value, and the value.
    pub fn describe(&self) -> (res: (&'static str, &'static str, String))
        ensures
            (res.0@, res.1@, res.2@) == scope_view(*self),
    {
        match self {
            ForgetScope::Memory(id) => ("memory", "memory_id", id_text(id)),
            ForgetScope::Entity(id) => ("entity", "entity_id", copy_text(id.as_str())),
            ForgetScope::Alias(alias) => ("alias", "alias", copy_text(alias.as_str())),
            ForgetScope::Conversation(id) => {
                ("conversation", "conversation_id", copy_text(id.as_str()))
            },
            ForgetScope::Tag(tag) => ("tag", "tag", copy_text(tag.as_str())),
        }
    }
}

/// Request to apply a correction against prior memories or derived rows.
#[derive(Debug)]
pub struct CorrectionRequest {
    pub new_memory_id: MemoryId,
    pub old_memory_id: Option<MemoryId>,
    pub claim_ids: Vec<String>,
    pub relationship_ids: Vec<String>,
    pub reason: Option<String>,
}

impl CorrectionRequest {
    /// A correction that names nothing but the memory that corrects.
    pub fn new(new_memory_id: MemoryId) -> (res: Self)
        ensures
            res.new_memory_id == new_memory_id,
            res.old_memory_id is None,
            res.claim_ids@ == Seq::<String>::empty(),
            res.relationship_ids@ == Seq::<String>::empty(),
            res.reason is None,
    {
        CorrectionRequest {
            new_memory_id,
            old_memory_id: None,
            claim_ids: Vec::new(),
            relationship_ids: Vec::new(),
            reason: None,
        }
    }
}

/// Identities affected by one policy plan.
#[derive(Debug)]
pub struct PolicyAffected {
    pub memory_ids: Vec<MemoryId>,
    pub claim_ids: Vec<String>,
    pub relationship_ids: Vec<String>,
    pub entity_ids: Vec<String>,
}

/// The mathematical form of what is affected.
#[verifier::ext_equal]
pub struct AffectedView {
    pub memory_ids: Seq<MemoryId>,
    pub claim_ids: Seq<Seq<char>>,
    pub relationship_ids: Seq<Seq<char>>,
    pub entity_ids: Seq<Seq<char>>,
}

impl View for PolicyAffected {
    type V = AffectedView;

    open spec fn view(&self) -> AffectedView {
        AffectedView {
            memory_ids: self.memory_ids@,
            claim_ids: views(self.claim_ids@),
            relationship_ids: views(self.relationship_ids@),
            entity_ids: views(self.entity_ids@),
        }
    }
}

/// Nothing is affected.
pub open spec fn nothing() -> AffectedView {
    AffectedView {
        memory_ids: Seq::empty(),
        claim_ids: Seq::empty(),
        relationship_ids: Seq::empty(),
        entity_ids: Seq::empty(),
    }
}

impl Default for PolicyAffected {
    fn default() -> (res: Self)
        ensures
            res@ == nothing(),
    {
        let res = PolicyAffected {
            memory_ids: Vec::new(),
            claim_ids: Vec::new(),
            relationship_ids: Vec::new(),
            entity_ids: Vec::new(),
        };
        assert(res@ =~= nothing());
        res
    }
}

impl PolicyAffected {
    /// A copy of what is affected.
    pub fn copy(&self) -> (res: PolicyAffected)
        ensures
            res@ == self@,
    {
        PolicyAffected {
            memory_ids: copy_ids(&self.memory_ids),
            claim_ids: copy_texts(&self.claim_ids),
            relationship_ids: copy_texts(&self.relationship_ids),
            entity_ids: copy_texts(&self.entity_ids),
        }
    }
}

fn copy_ids(ids: &Vec<MemoryId>) -> (res: Vec<MemoryId>)
    ensures
        res@ == ids@,
{
    let mut out: Vec<MemoryId> = Vec::new();
    for i in 0..ids.len()
        invariant
            out@ == ids@.take(i as int),
    {
        out.push(ids[i]);
        assert(out@ =~= ids@.take(i + 1));
    }
    assert(ids@.take(ids.len() as int) =~= ids@);
    out
}

/// The texts of some identities.
pub open spec fn id_texts(ids: Seq<MemoryId>) -> Seq<Seq<char>> {
    ids.map_values(|id: MemoryId| uuid_text(id.value))
}

/// The texts of some identities.
pub fn ids_json(ids: &Vec<MemoryId>) -> (res: Vec<String>)
    ensures
        views(res@) == id_texts(ids@),
{
    let ghost all = id_texts(ids@);
    let mut out: Vec<String> = Vec::new();
    assert(views(out@) =~= all.take(0));
    for i in 0..ids.len()
        invariant
            all == id_texts(ids@),
            views(out@) == all.take(i as int),
    {
        let text = id_text(&ids[i]);
        proof {
            lemma_views_push(out@, text);
            assert(all.take(i + 1) =~= all.take(i as int).push(all[i as int]));
        }
        out.push(text);
    }
    assert(all.take(all.len() as int) =~= all);
    out
}

/// Texts in order, each once.
pub open spec fn ordered(values: Seq<Seq<char>>) -> Seq<Seq<char>> {
    sorted_texts(distinct(values))
}

/// Texts in order, each once.
pub fn sorted_strings(values: &Vec<String>) -> (res: Vec<String>)
    ensures
        views(res@) == ordered(views(values@)),
{
    let unique = distinct_texts(values);
    proof {
        assert(views_of(unique@) =~= views(unique@));
    }
    let sorted = sort_ranked(unique);
    proof {
        assert(views_of(sorted@) =~= views(sorted@));
        assert((|a: Seq<char>, b: Seq<char>| String::ranks_before(a, b)) =~= (|
            a: Seq<char>,
            b: Seq<char>,
        | crate::text::text_before(a, b)));
    }
    sorted
}

/// Ordered texts are those that were given, each strictly after the one before.
pub proof fn law_ordered(values: Seq<Seq<char>>)
    ensures
        forall|v: Seq<char>| #[trigger] ordered(values).contains(v) <==> values.contains(v),
        forall|i: int, j: int|
            0 <= i < j < ordered(values).len() ==> crate::text::text_before(
                #[trigger] ordered(values)[i],
                #[trigger] ordered(values)[j],
            ),
{
    let rank = |a: Seq<char>, b: Seq<char>| crate::text::text_before(a, b);
    let unique = distinct(values);
    let out = ordered(values);
    crate::query::law_distinct(values);
    crate::order::law_sort_keeps_items(unique, rank);
    assert(crate::order::weakly_ordered(unique, rank)) by {
        assert forall|a: Seq<char>, b: Seq<char>, c: Seq<char>|
            crate::text::text_before(a, b) && crate::text::text_before(b, c) implies
            crate::text::text_before(a, c) by {
            crate::text::law_text_order_transitive(a, b, c);
        }
        assert forall|a: Seq<char>, b: Seq<char>|
            #![trigger crate::text::text_before(a, b)]
            crate::text::text_before(a, b) implies !crate::text::text_before(b, a) by {
            crate::text::law_text_order_total(a, b);
        }
        assert forall|a: Seq<char>, b: Seq<char>|
            #![trigger crate::text::text_before(a, b)]
            !crate::text::text_before(a, b) && !crate::text::text_before(b, a) implies a == b by {
            crate::text::law_text_order_total(a, b);
        }
    }
    crate::order::law_sort_orders(unique, rank);
    unique.lemma_multiset_has_no_duplicates();
    out.lemma_multiset_has_no_duplicates_conv();
    assert forall|i: int, j: int| 0 <= i < j < out.len() implies crate::text::text_before(
        #[trigger] out[i],
        #[trigger] out[j],
    ) by {
        assert(!rank(out[j], out[i]));
        assert(out[i] != out[j]);
        crate::text::law_text_order_total(out[i], out[j]);
    }
}

/// Whether a memory carries the tag of archived memories.
pub open spec fn is_archived(m: MemoryView) -> bool {
    m.tags.contains("archived"@)
}

/// Whether a memory is archived.
pub fn memory_is_archived(memory: &MemoryNode) -> (res: bool)
    ensures
        res == is_archived(memory@),
{
    has_text(&memory.tags, "archived")
}

// ---------------------------------------------------------------------------
// What a forget scope reaches
// ---------------------------------------------------------------------------
/// A memory, and the claims and relationships that it is evidence for.
#[derive(Debug)]
pub struct MemoryFacts {
    pub memory_id: MemoryId,
    pub claim_ids: Vec<String>,
    pub relationship_ids: Vec<String>,
}

/// The mathematical form of what hangs on a memory.
pub struct MemoryFactsView {
    pub memory_id: MemoryId,
    pub claim_ids: Seq<Seq<char>>,
    pub relationship_ids: Seq<Seq<char>>,
}

impl View for MemoryFacts {
    type V = MemoryFactsView;

    open spec fn view(&self) -> MemoryFactsView {
        MemoryFactsView {
            memory_id: self.memory_id,
            claim_ids: views(self.claim_ids@),
            relationship_ids: views(self.relationship_ids@),
        }
    }
}

/// A claim or a relationship, and the memories that are evidence for it.
#[derive(Debug)]
pub struct EvidencedRow {
    pub id: String,
    pub evidence: Vec<MemoryId>,
}

impl View for EvidencedRow {
    type V = (Seq<char>, Seq<MemoryId>);

    open spec fn view(&self) -> (Seq<char>, Seq<MemoryId>) {
        (self.id@, self.evidence@)
    }
}

/// An entity, and what is known of it.
#[derive(Debug)]
pub struct EntityFacts {
    pub entity_id: String,
    pub memories: Vec<MemoryFacts>,
    pub claims: Vec<EvidencedRow>,
    pub relationships: Vec<EvidencedRow>,
}

/// The mathematical form of what is known of an entity.
pub struct EntityFactsView {
    pub entity_id: Seq<char>,
    pub memories: Seq<MemoryFactsView>,
    pub claims: Seq<(Seq<char>, Seq<MemoryId>)>,
    pub relationships: Seq<(Seq<char>, Seq<MemoryId>)>,
}

impl View for EntityFacts {
    type V = EntityFactsView;

    open spec fn view(&self) -> EntityFactsView {
        EntityFactsView {
            entity_id: self.entity_id@,
            memories: views_of(self.memories@),
            claims: views_of(self.claims@),
            relationships: views_of(self.relationships@),
        }
    }
}

/// What the store holds under a scope: the memories of a memory, conversation or
/// tag scope, the entities of an entity or alias scope.
#[derive(Debug)]
pub enum ScopeFacts {
    Memories(Vec<MemoryFacts>),
    Entities(Vec<EntityFacts>),
}

/// What is looked up for a scope, before what hangs on it is read.
#[derive(Debug)]
pub enum ScopeLookup {
    /// These memories; nothing is searched.
    Memories(Vec<MemoryId>),
    /// The memories of a conversation.
    ConversationMemories(String),
    /// The memories with a tag.
    TagMemories(String),
    /// These entities; nothing is searched.
    Entities(Vec<String>),
    /// The entities with an alias.
    AliasEntities(String),
}

/// What is looked up for a scope: a memory or an entity by itself, the memories of
/// a conversation or a tag, the entities of an alias.
pub fn scope_lookup(scope: &ForgetScope) -> (res: ScopeLookup)
    ensures
        match *scope {
            ForgetScope::Memory(id) => res matches ScopeLookup::Memories(ids) && ids@ == seq![id],
            ForgetScope::Conversation(c) => res matches ScopeLookup::ConversationMemories(x) && x@
                == c@,
            ForgetScope::Tag(t) => res matches ScopeLookup::TagMemories(x) && x@ == t@,
            ForgetScope::Entity(e) => res matches ScopeLookup::Entities(ids) && views(ids@)
                == seq![e@],
            ForgetScope::Alias(a) => res matches ScopeLookup::AliasEntities(x) && x@ == a@,
        },
{
    match scope {
        ForgetScope::Memory(id) => {
            let mut ids: Vec<MemoryId> = Vec::new();
            ids.push(*id);
            assert(ids@ =~= seq![*id]);
            ScopeLookup::Memories(ids)
        },
        ForgetScope::Conversation(c) => ScopeLookup::ConversationMemories(copy_text(c.as_str())),
        ForgetScope::Tag(t) => ScopeLookup::TagMemories(copy_text(t.as_str())),
        ForgetScope::Entity(e) => {
            let mut ids: Vec<String> = Vec::new();
            ids.push(copy_text(e.as_str()));
            assert(views(ids@) =~= seq![e@]);
            ScopeLookup::Entities(ids)
        },
        ForgetScope::Alias(a) => ScopeLookup::AliasEntities(copy_text(a.as_str())),
    }
}

/// The memories of which facts were read.
pub open spec fn fact_memories(all: Seq<MemoryFactsView>) -> Seq<MemoryId> {
    all.map_values(|f: MemoryFactsView| f.memory_id)
}

/// The entities of which facts were read.
pub open spec fn fact_entities(all: Seq<EntityFactsView>) -> Seq<Seq<char>> {
    all.map_values(|e: EntityFactsView| e.entity_id)
}

/// Whether facts are those that were read for a scope, where the lookup of its
/// conversation or tag found `memories`, and that of its alias `entities`.
pub open spec fn facts_answer(
    scope: ForgetScope,
    memories: Seq<MemoryId>,
    entities: Seq<Seq<char>>,
    facts: ScopeFacts,
) -> bool {
    match scope {
        ForgetScope::Memory(id) => facts matches ScopeFacts::Memories(all) && fact_memories(
            views_of(all@),
        ) == seq![id],
        ForgetScope::Conversation(_) => facts matches ScopeFacts::Memories(all) && fact_memories(
            views_of(all@),
        ) == memories,
        ForgetScope::Tag(_) => facts matches ScopeFacts::Memories(all) && fact_memories(
            views_of(all@),
        ) == memories,
        ForgetScope::Entity(id) => facts matches ScopeFacts::Entities(all) && fact_entities(
            views_of(all@),
        ) == seq![id@],
        ForgetScope::Alias(_) => facts matches ScopeFacts::Entities(all) && fact_entities(
            views_of(all@),
        ) == entities,
    }
}

/// A memory and what hangs on it are affected.
pub open spec fn with_memory_closure(a: AffectedView, f: MemoryFactsView) -> AffectedView {
    AffectedView {
        memory_ids: a.memory_ids.push(f.memory_id),
        claim_ids: a.claim_ids + f.claim_ids,
        relationship_ids: a.relationship_ids + f.relationship_ids,
        entity_ids: a.entity_ids,
    }
}

/// Some memories and what hangs on them are affected.
pub open spec fn with_memory_closures(a: AffectedView, all: Seq<MemoryFactsView>) -> AffectedView
    decreases all.len(),
{
    if all.len() == 0 {
        a
    } else {
        with_memory_closure(with_memory_closures(a, all.drop_last()), all.last())
    }
}

/// The identities of some rows.
pub open spec fn row_ids(rows: Seq<(Seq<char>, Seq<MemoryId>)>) -> Seq<Seq<char>> {
    rows.map_values(|r: (Seq<char>, Seq<MemoryId>)| r.0)
}

/// The evidence of some rows, one after the other.
pub open spec fn row_evidence(rows: Seq<(Seq<char>, Seq<MemoryId>)>) -> Seq<MemoryId>
    decreases rows.len(),
{
    if rows.len() == 0 {
        Seq::empty()
    } else {
        row_evidence(rows.drop_last()) + rows.last().1
    }
}

/// An entity, its memories with what hangs on them, its claims and relationships
/// with their evidence are affected.
pub open spec fn with_entity_closure(a: AffectedView, e: EntityFactsView) -> AffectedView {
    let named = AffectedView { entity_ids: a.entity_ids.push(e.entity_id), ..a };
    let reached = with_memory_closures(named, e.memories);
    AffectedView {
        memory_ids: reached.memory_ids + row_evidence(e.claims) + row_evidence(e.relationships),
        claim_ids: reached.claim_ids + row_ids(e.claims),
        relationship_ids: reached.relationship_ids + row_ids(e.relationships),
        entity_ids: reached.entity_ids,
    }
}

/// Some entities with all that is known of them are affected.
pub open spec fn with_entity_closures(a: AffectedView, all: Seq<EntityFactsView>) -> AffectedView
    decreases all.len(),
{
    if all.len() == 0 {
        a
    } else {
        with_entity_closure(with_entity_closures(a, all.drop_last()), all.last())
    }
}

/// What a scope reaches.
pub open spec fn reached_by(facts: ScopeFacts) -> AffectedView {
    match facts {
        ScopeFacts::Memories(all) => with_memory_closures(nothing(), views_of(all@)),
        ScopeFacts::Entities(all) => with_entity_closures(nothing(), views_of(all@)),
    }
}

fn push_texts(items: &Vec<String>, out: &mut Vec<String>)
    ensures
        views(final(out)@) == views(old(out)@) + views(items@),
{
    let ghost start = views(out@);
    let ghost all = views(items@);
    assert(start + all.take(0) =~= start);
    for i in 0..items.len()
        invariant
            all == views(items@),
            views(out@) == start + all.take(i as int),
    {
        let item = copy_text(items[i].as_str());
        proof {
            lemma_views_push(out@, item);
            assert(start + all.take(i + 1) =~= (start + all.take(i as int)).push(all[i as int]));
        }
        out.push(item);
    }
    assert(all.take(all.len() as int) =~= all);
}

fn push_ids(items: &Vec<MemoryId>, out: &mut Vec<MemoryId>)
    ensures
        final(out)@ == old(out)@ + items@,
{
    let ghost start = out@;
    assert(start + items@.take(0) =~= start);
    for i in 0..items.len()
        invariant
            out@ == start + items@.take(i as int),
    {
        out.push(items[i]);
        assert(out@ =~= start + items@.take(i + 1));
    }
    assert(items@.take(items.len() as int) =~= items@);
}

/// Adds a memory and what hangs on it.
pub fn collect_memory_forget_closure(facts: &MemoryFacts, affected: &mut PolicyAffected)
    ensures
        final(affected)@ == with_memory_closure(old(affected)@, facts@),
{
    affected.memory_ids.push(facts.memory_id);
    push_texts(&facts.claim_ids, &mut affected.claim_ids);
    push_texts(&facts.relationship_ids, &mut affected.relationship_ids);
}

fn collect_memories(all: &Vec<MemoryFacts>, affected: &mut PolicyAffected)
    ensures
        final(affected)@ == with_memory_closures(old(affected)@, views_of(all@)),
{
    let ghost start = affected@;
    let ghost v = views_of(all@);
    assert(v.take(0).len() == 0);
    for i in 0..all.len()
        invariant
            v == views_of(all@),
            affected@ == with_memory_closures(start, v.take(i as int)),
    {
        proof {
            assert(v.take(i + 1).drop_last() =~= v.take(i as int));
            assert(v.take(i + 1).last() == all@[i as int]@);
        }
        collect_memory_forget_closure(&all[i], affected);
    }
    assert(v.take(v.len() as int) =~= v);
}

fn push_rows(rows: &Vec<EvidencedRow>, ids: &mut Vec<String>, memories: &mut Vec<MemoryId>)
    ensures
        views(final(ids)@) == views(old(ids)@) + row_ids(views_of(rows@)),
        final(memories)@ == old(memories)@ + row_evidence(views_of(rows@)),
{
    let ghost start_ids = views(ids@);
    let ghost start = memories@;
    let ghost v = views_of(rows@);
    proof {
        assert(start_ids + row_ids(v.take(0)) =~= start_ids);
        assert(start + row_evidence(v.take(0)) =~= start);
    }
    for i in 0..rows.len()
        invariant
            v == views_of(rows@),
            views(ids@) == start_ids + row_ids(v.take(i as int)),
            memories@ == start + row_evidence(v.take(i as int)),
    {
        proof {
            assert(v.take(i + 1).drop_last() =~= v.take(i as int));
            assert(v.take(i + 1).last() == rows@[i as int]@);
            assert(row_ids(v.take(i + 1)) =~= row_ids(v.take(i as int)).push(rows@[i as int].id@));
            assert(start_ids + row_ids(v.take(i + 1)) =~= (start_ids + row_ids(
                v.take(i as int),
            )).push(rows@[i as int].id@));
        }
        let id = copy_text(rows[i].id.as_str());
        proof {
            lemma_views_push(ids@, id);
        }
        ids.push(id);
        push_ids(&rows[i].evidence, memories);
        proof {
            assert(start + row_evidence(v.take(i + 1)) =~= start + row_evidence(v.take(i as int))
                + rows@[i as int].evidence@);
        }
    }
    assert(v.take(v.len() as int) =~= v);
}

/// Adds an entity and what is known of it.
pub fn collect_entity_forget_closure(facts: &EntityFacts, affected: &mut PolicyAffected)
    ensures
        final(affected)@ == with_entity_closure(old(affected)@, facts@),
{
    let entity_id = copy_text(facts.entity_id.as_str());
    proof {
        lemma_views_push(affected.entity_ids@, entity_id);
    }
    affected.entity_ids.push(entity_id);
    collect_memories(&facts.memories, affected);
    push_rows(&facts.claims, &mut affected.claim_ids, &mut affected.memory_ids);
    push_rows(&facts.relationships, &mut affected.relationship_ids, &mut affected.memory_ids);
}

/// What a scope reaches.
pub fn resolve_forget_scope(facts: &ScopeFacts) -> (res: PolicyAffected)
    ensures
        res@ == reached_by(*facts),
{
    let mut affected = PolicyAffected::default();
    match facts {
        ScopeFacts::Memories(all) => {
            collect_memories(all, &mut affected);
        },
        ScopeFacts::Entities(all) => {
            let ghost v = views_of(all@);
            assert(v.take(0).len() == 0);
            for i in 0..all.len()
                invariant
                    v == views_of(all@),
                    affected@ == with_entity_closures(nothing(), v.take(i as int)),
            {
                proof {
                    assert(v.take(i + 1).drop_last() =~= v.take(i as int));
                    assert(v.take(i + 1).last() == all@[i as int]@);
                }
                collect_entity_forget_closure(&all[i], &mut affected);
            }
            assert(v.take(v.len() as int) =~= v);
        },
    }
    affected
}

/// What is affected, in order and without repetitions.
pub open spec fn tidied(a: AffectedView) -> AffectedView {
    AffectedView {
        memory_ids: ascending(a.memory_ids),
        claim_ids: ordered(a.claim_ids),
        relationship_ids: ordered(a.relationship_ids),
        entity_ids: ordered(a.entity_ids),
    }
}

pub(crate) fn tidy(affected: PolicyAffected) -> (res: PolicyAffected)
    ensures
        res@ == tidied(affected@),
{
    PolicyAffected {
        memory_ids: sort_unique(affected.memory_ids),
        claim_ids: sorted_strings(&affected.claim_ids),
        relationship_ids: sorted_strings(&affected.relationship_ids),
        entity_ids: sorted_strings(&affected.entity_ids),
    }
}

} // verus!
