//! Which writes a plan holds, what a scope of forgetting reaches, and what the
//! results of several questions become.
use crate::codec::dimension_conflict;
use crate::entities::law_ascending;
use crate::entity_extraction::EntityExtractionConfig;
use crate::extraction_jobs::first_problem;
use crate::float::Single;
use crate::lifecycle::provision_for;
use crate::memory::{fresh_memory, AgentId, ErrorView, MemoryId, MemoryType, MemoryView, Timestamp};
use crate::order::views_of;
use crate::policies::{
    law_ordered, nothing, with_memory_closures, ForgetMode, MemoryFactsView, ScopeFacts,
};
use crate::policy_runs::forget_plan;
use crate::query::{distinct, law_distinct};
use crate::recall::{all_positions, chained, entities_take_part, fused_lists};
use crate::run_laws::lemma_places_grow;
use crate::search::{is_trace_header, positions, SearchRequest, TraceHeader};
use crate::text::{opt_view, trimmed};
use crate::writes::{
    delete_steps, first_conflict, fitting_steps, purge_steps, rebuild_steps, store_steps, Step,
};
use vstd::prelude::*;

verus! {

// ---------------------------------------------------------------------------
// Memories
// ---------------------------------------------------------------------------
/// A memory is made now, was never read, is fully salient and certain, and holds
/// what it is made of and nothing else.
pub proof fn law_fresh_memory(
    id: MemoryId,
    agent_id: AgentId,
    memory_type: MemoryType,
    content: Seq<char>,
    embedding: Seq<Single>,
    now: Timestamp,
)
    ensures
        ({
            let m = fresh_memory(id, agent_id, memory_type, content, embedding, now);
            &&& m.id == id
            &&& m.agent_id == agent_id
            &&& m.space_id.value == 0
            &&& m.memory_type == memory_type
            &&& m.content == content
            &&& m.embedding == embedding
            &&& m.created_at == now
            &&& m.accessed_at == now
            &&& m.access_count == 0
            &&& m.salience.bits == 0x3f80_0000
            &&& m.confidence.bits == 0x3f80_0000
            &&& m.attributes == "{}"@
            &&& m.tags.len() == 0
            &&& m.valid_from is None
            &&& m.valid_until is None
        }),
{
}

/// A batch needs a new index only where there is none and one of its memories has an
/// embedding; the first of these gives the dimension.
pub proof fn law_provision(current: usize, lens: Seq<nat>, k: int)
    requires
        forall|i: int| 0 <= i < lens.len() && i < k ==> #[trigger] lens[i] == 0,
    ensures
        current != 0 ==> provision_for(current, lens) is None,
        k >= lens.len() ==> provision_for(current, lens) is None,
        current == 0 && 0 <= k < lens.len() && lens[k] != 0 ==> provision_for(current, lens)
            == Some(lens[k]),
    decreases lens.len(),
{
    if lens.len() > 0 && k > 0 {
        assert(lens[0] == 0);
        let t = lens.drop_first();
        assert forall|i: int| 0 <= i < t.len() && i < k - 1 implies #[trigger] t[i] == 0 by {
            assert(t[i] == lens[i + 1]);
        }
        law_provision(current, t, k - 1);
    }
}

/// A batch is refused if and only if one of its embeddings has a length that is
/// neither 0 nor that of the index, where there is one. The first of these is
/// reported.
pub proof fn law_batch_fits(nodes: Seq<MemoryView>, dim: usize)
    ensures
        match first_conflict(nodes, dim) {
            Some(n) => exists|k: int|
                0 <= k < nodes.len() && (#[trigger] nodes[k]).embedding.len() == n && n != 0 && dim
                    != 0 && n != dim && all_fit(nodes.take(k), dim),
            None => all_fit(nodes, dim),
        },
    decreases nodes.len(),
{
    if nodes.len() > 0 {
        let head = nodes.drop_last();
        law_batch_fits(head, dim);
        match first_conflict(head, dim) {
            Some(n) => {
                let k = choose|k: int|
                    0 <= k < head.len() && (#[trigger] head[k]).embedding.len() == n && n != 0
                        && dim != 0 && n != dim && all_fit(head.take(k), dim);
                assert(nodes[k].embedding.len() == n);
                assert(nodes.take(k) =~= head.take(k));
            },
            None => {
                let last = nodes.len() - 1;
                assert(nodes.take(last) =~= head);
                if !dimension_conflict(dim, nodes.last().embedding.len()) {
                    assert forall|k: int| 0 <= k < nodes.len() implies (
                    #[trigger] nodes[k]).embedding.len() == 0 || dim == 0
                        || nodes[k].embedding.len() == dim by {
                        if k < head.len() {
                            assert(head[k] == nodes[k]);
                        }
                    }
                } else {
                    assert(nodes[last].embedding.len() != dim);
                }
            },
        }
    }
}

/// Whether every embedding fits an index.
pub open spec fn all_fit(nodes: Seq<MemoryView>, dim: usize) -> bool {
    forall|k: int|
        0 <= k < nodes.len() ==> (#[trigger] nodes[k]).embedding.len() == 0 || dim == 0
            || nodes[k].embedding.len() == dim
}

/// Storing a memory writes its row, its vector where there is an index and an
/// embedding, and each of its tags, after what was there before is cleared; it ends
/// with one record.
pub proof fn law_store_writes(m: MemoryView, dim: usize)
    ensures
        ({
            let all = store_steps(m, dim);
            let v: int = if dim > 0 && m.embedding.len() > 0 {
                1
            } else {
                0
            };
            &&& all.len() == 4 + v + m.tags.len()
            &&& all[0] == Step::Memory(m)
            &&& all[1] == Step::VectorClear(m.id)
            &&& v == 1 ==> all[2] == Step::Vector(m.id, m.embedding)
            &&& all[2 + v] == Step::TagsClear(m.id)
            &&& forall|i: int|
                0 <= i < m.tags.len() ==> all[3 + v + i] == Step::Tag(m.id, #[trigger] m.tags[i])
            &&& all.last() matches Step::Record(r) && r.operation_type == "memory_upsert"@
                && r.memory_id == Some(m.id)
        }),
{
}

/// Deleting a memory clears its vector, its tags, its edges and its row, and nothing
/// else.
pub proof fn law_delete_writes(id: MemoryId)
    ensures
        delete_steps(id) == seq![
            Step::VectorClear(id),
            Step::TagsClear(id),
            Step::EdgesClear(id),
            Step::MemoryClear(id),
        ],
{
}

/// Building an index clears it and writes the vectors that have its dimension, in
/// their order, and no others. `places` are the places of those. The record says how
/// many were written and how many were not.
pub proof fn law_rebuild_writes(rows: Seq<(MemoryId, Seq<Single>)>, dim: usize) -> (places: Seq<
    int,
>)
    ensures
        fitting_steps(rows, dim).len() == places.len(),
        forall|k: int|
            0 <= k < rows.len() ==> (#[trigger] places.contains(k) <==> rows[k].1.len() == dim),
        forall|i: int, j: int|
            0 <= i < j < places.len() ==> #[trigger] places[i] < #[trigger] places[j],
        forall|i: int|
            0 <= i < places.len() ==> 0 <= #[trigger] places[i] < rows.len() && fitting_steps(
                rows,
                dim,
            )[i] == Step::Vector(rows[places[i]].0, rows[places[i]].1),
        rebuild_steps(rows, dim).len() == places.len() + 2,
        rebuild_steps(rows, dim)[0] == Step::VectorsClear,
        rebuild_steps(rows, dim).subrange(1, places.len() as int + 1) == fitting_steps(rows, dim),
        rebuild_steps(rows, dim).last() matches Step::Record(r) && r
            == crate::audit::index_rebuild_record(
            dim,
            places.len() as usize,
            (rows.len() - places.len()) as usize,
        ),
    decreases rows.len(),
{
    let all = rebuild_steps(rows, dim);
    let fitting = fitting_steps(rows, dim);
    assert(all.subrange(1, fitting.len() as int + 1) =~= fitting);
    if rows.len() == 0 {
        Seq::empty()
    } else {
        let head = rows.drop_last();
        let n = rows.len() - 1;
        let before = law_rebuild_writes(head, dim);
        let rest = fitting_steps(head, dim);
        assert forall|i: int| 0 <= i < before.len() implies 0 <= #[trigger] before[i] < rows.len()
            && fitting[i] == Step::Vector(rows[before[i]].0, rows[before[i]].1) by {
            assert(head[before[i]] == rows[before[i]]);
            assert(fitting[i] == rest[i]);
        }
        assert forall|k: int| 0 <= k < n implies (#[trigger] before.contains(k)
            <==> rows[k].1.len() == dim) by {
            assert(head[k] == rows[k]);
        }
        lemma_places_grow(before, n);
        if rows[n].1.len() == dim {
            before.push(n)
        } else {
            before
        }
    }
}

/// Dropping traces clears the hits of each and then the trace itself.
pub proof fn law_purge_writes(stale: Seq<Seq<char>>)
    ensures
        purge_steps(stale).len() == 2 * stale.len(),
        forall|i: int|
            0 <= i < stale.len() ==> purge_steps(stale)[2 * i] == Step::TraceHitsClear(
                #[trigger] stale[i],
            ) && purge_steps(stale)[2 * i + 1] == Step::TraceClear(stale[i]),
    decreases stale.len(),
{
    if stale.len() > 0 {
        let head = stale.drop_last();
        law_purge_writes(head);
        let rest = purge_steps(head);
        let all = purge_steps(stale);
        assert forall|i: int| 0 <= i < stale.len() implies all[2 * i] == Step::TraceHitsClear(
            #[trigger] stale[i],
        ) && all[2 * i + 1] == Step::TraceClear(stale[i]) by {
            if i < head.len() {
                assert(head[i] == stale[i]);
                assert(all[2 * i] == rest[2 * i]);
                assert(all[2 * i + 1] == rest[2 * i + 1]);
            }
        }
    }
}

// ---------------------------------------------------------------------------
// Problems
// ---------------------------------------------------------------------------
/// What is reported of some records is the problem of the first one that has one.
pub proof fn law_first_problem<A>(
    items: Seq<A>,
    problem: spec_fn(A) -> Option<ErrorView>,
    k: int,
)
    requires
        forall|i: int|
            0 <= i < items.len() && i < k ==> problem(#[trigger] items[i]) is None,
    ensures
        0 <= k < items.len() && problem(items[k]) is Some ==> first_problem(items, problem)
            == problem(items[k]),
        k >= items.len() ==> first_problem(items, problem) is None,
    decreases items.len(),
{
    if items.len() > 0 {
        let head = items.drop_last();
        assert forall|i: int| 0 <= i < head.len() && i < k implies problem(
            #[trigger] head[i],
        ) is None by {
            assert(head[i] == items[i]);
        }
        law_first_problem(head, problem, k);
        if k >= items.len() {
            assert(problem(items[items.len() - 1]) is None);
        }
    }
}

// ---------------------------------------------------------------------------
// Forgetting
// ---------------------------------------------------------------------------
/// Whether one of some memories has an identity.
pub open spec fn memory_among(all: Seq<MemoryFactsView>, id: MemoryId) -> bool {
    exists|k: int| 0 <= k < all.len() && (#[trigger] all[k]).memory_id == id
}

/// Whether a claim hangs on one of some memories.
pub open spec fn claim_among(all: Seq<MemoryFactsView>, id: Seq<char>) -> bool {
    exists|k: int| 0 <= k < all.len() && (#[trigger] all[k]).claim_ids.contains(id)
}

/// Whether a relationship hangs on one of some memories.
pub open spec fn relationship_among(all: Seq<MemoryFactsView>, id: Seq<char>) -> bool {
    exists|k: int| 0 <= k < all.len() && (#[trigger] all[k]).relationship_ids.contains(id)
}

proof fn lemma_concat_has<A>(a: Seq<A>, b: Seq<A>, x: A)
    ensures
        (a + b).contains(x) <==> a.contains(x) || b.contains(x),
{
    let all = a + b;
    if a.contains(x) {
        let i = choose|i: int| 0 <= i < a.len() && a[i] == x;
        assert(all[i] == x);
    }
    if b.contains(x) {
        let i = choose|i: int| 0 <= i < b.len() && b[i] == x;
        assert(all[a.len() + i] == x);
    }
    if all.contains(x) {
        let i = choose|i: int| 0 <= i < all.len() && all[i] == x;
        if i < a.len() {
            assert(a[i] == x);
        } else {
            assert(b[i - a.len()] == x);
        }
    }
}

proof fn lemma_closures(all: Seq<MemoryFactsView>, m: MemoryId, x: Seq<char>)
    ensures
        ({
            let a = with_memory_closures(nothing(), all);
            &&& a.memory_ids.contains(m) <==> memory_among(all, m)
            &&& a.claim_ids.contains(x) <==> claim_among(all, x)
            &&& a.relationship_ids.contains(x) <==> relationship_among(all, x)
            &&& a.entity_ids.len() == 0
        }),
    decreases all.len(),
{
    if all.len() > 0 {
        let head = all.drop_last();
        let last = all[all.len() - 1];
        let b = with_memory_closures(nothing(), head);
        let a = with_memory_closures(nothing(), all);
        lemma_closures(head, m, x);
        assert(b.memory_ids.push(last.memory_id) =~= b.memory_ids + seq![last.memory_id]);
        lemma_concat_has(b.memory_ids, seq![last.memory_id], m);
        assert(seq![last.memory_id].contains(m) <==> m == last.memory_id) by {
            assert(seq![last.memory_id][0] == last.memory_id);
        }
        lemma_concat_has(b.claim_ids, last.claim_ids, x);
        lemma_concat_has(b.relationship_ids, last.relationship_ids, x);
        assert(memory_among(all, m) <==> memory_among(head, m) || m == last.memory_id) by {
            if memory_among(head, m) {
                let k = choose|k: int| 0 <= k < head.len() && (#[trigger] head[k]).memory_id == m;
                assert(all[k] == head[k]);
            }
            if memory_among(all, m) {
                let k = choose|k: int| 0 <= k < all.len() && (#[trigger] all[k]).memory_id == m;
                if k < head.len() {
                    assert(head[k] == all[k]);
                }
            }
        }
        assert(claim_among(all, x) <==> claim_among(head, x) || last.claim_ids.contains(x)) by {
            if claim_among(head, x) {
                let k = choose|k: int|
                    0 <= k < head.len() && (#[trigger] head[k]).claim_ids.contains(x);
                assert(all[k] == head[k]);
            }
            if claim_among(all, x) {
                let k = choose|k: int|
                    0 <= k < all.len() && (#[trigger] all[k]).claim_ids.contains(x);
                if k < head.len() {
                    assert(head[k] == all[k]);
                }
            }
        }
        assert(relationship_among(all, x) <==> relationship_among(head, x)
            || last.relationship_ids.contains(x)) by {
            if relationship_among(head, x) {
                let k = choose|k: int|
                    0 <= k < head.len() && (#[trigger] head[k]).relationship_ids.contains(x);
                assert(all[k] == head[k]);
            }
            if relationship_among(all, x) {
                let k = choose|k: int|
                    0 <= k < all.len() && (#[trigger] all[k]).relationship_ids.contains(x);
                if k < head.len() {
                    assert(head[k] == all[k]);
                }
            }
        }
    }
}

/// Forgetting by memories reaches exactly these memories and the claims and
/// relationships that hang on them, and no entity.
pub proof fn law_forget_memories(
    scope: (Seq<char>, Seq<char>, Seq<char>),
    facts: ScopeFacts,
    mode: ForgetMode,
    apply: bool,
    run_id: Seq<char>,
    now: Timestamp,
    m: MemoryId,
    x: Seq<char>,
)
    requires
        facts is Memories,
    ensures
        ({
            let affected = forget_plan(scope, facts, mode, apply, run_id, now).affected;
            let all = views_of(facts->Memories_0@);
            &&& affected.memory_ids.contains(m) <==> memory_among(all, m)
            &&& affected.claim_ids.contains(x) <==> claim_among(all, x)
            &&& affected.relationship_ids.contains(x) <==> relationship_among(all, x)
            &&& !affected.entity_ids.contains(x)
        }),
{
    let all = views_of(facts->Memories_0@);
    let a = with_memory_closures(nothing(), all);
    lemma_closures(all, m, x);
    law_ascending(a.memory_ids);
    law_ordered(a.claim_ids);
    law_ordered(a.relationship_ids);
    law_ordered(a.entity_ids);
}

// ---------------------------------------------------------------------------
// Several questions
// ---------------------------------------------------------------------------
/// Whether one of some lists holds a memory.
pub open spec fn in_some_list(lists: Seq<Seq<MemoryId>>, id: MemoryId) -> bool {
    exists|i: int| 0 <= i < lists.len() && (#[trigger] lists[i]).contains(id)
}

proof fn lemma_chained(lists: Seq<Seq<MemoryId>>, id: MemoryId)
    ensures
        chained(lists).contains(id) <==> in_some_list(lists, id),
    decreases lists.len(),
{
    if lists.len() > 0 {
        let head = lists.drop_last();
        lemma_chained(head, id);
        lemma_concat_has(chained(head), lists.last(), id);
        if in_some_list(head, id) {
            let i = choose|i: int| 0 <= i < head.len() && (#[trigger] head[i]).contains(id);
            assert(lists[i] == head[i]);
        }
        if lists.last().contains(id) {
            assert(lists[lists.len() - 1].contains(id));
        }
        if in_some_list(lists, id) {
            let i = choose|i: int| 0 <= i < lists.len() && (#[trigger] lists[i]).contains(id);
            if i < head.len() {
                assert(head[i] == lists[i]);
            }
        }
    }
}

/// The results of several questions become one list that holds each memory of any of
/// them once, with its positions in one list after the other.
pub proof fn law_fused_lists(lists: Seq<Seq<MemoryId>>, id: MemoryId, last: Seq<MemoryId>)
    ensures
        (exists|i: int|
            0 <= i < fused_lists(lists).len() && (#[trigger] fused_lists(lists)[i]).id == id)
            <==> in_some_list(lists, id),
        forall|i: int, j: int|
            0 <= i < j < fused_lists(lists).len() ==> (#[trigger] fused_lists(lists)[i]).id != (
            #[trigger] fused_lists(lists)[j]).id,
        forall|i: int|
            0 <= i < fused_lists(lists).len() ==> (#[trigger] fused_lists(lists)[i]).ranks
                == all_positions(lists, fused_lists(lists)[i].id),
        all_positions(Seq::empty(), id).len() == 0,
        all_positions(lists.push(last), id) == all_positions(lists, id) + positions(last, id),
{
    lemma_chained(lists, id);
    law_distinct(chained(lists));
    let ids = distinct(chained(lists));
    let f = fused_lists(lists);
    if ids.contains(id) {
        let k = choose|k: int| 0 <= k < ids.len() && ids[k] == id;
        assert(f[k].id == id);
    }
    if exists|i: int| 0 <= i < f.len() && (#[trigger] f[i]).id == id {
        let k = choose|k: int| 0 <= k < f.len() && (#[trigger] f[k]).id == id;
        assert(ids[k] == id);
        assert(ids.contains(id));
    }
    assert forall|i: int, j: int| 0 <= i < j < f.len() implies (#[trigger] f[i]).id != (
    #[trigger] f[j]).id by {
        assert(ids[i] != ids[j]);
    }
    assert(lists.push(last).drop_last() =~= lists);
}

/// Entities take part in a recall only where extraction and their part in recalls
/// are switched on and there is a question that says something.
pub proof fn law_entities_take_part(query: Seq<char>, config: EntityExtractionConfig)
    ensures
        !entities_take_part(None, config),
        !config.enabled ==> !entities_take_part(Some(query), config),
        !config.recall_enabled ==> !entities_take_part(Some(query), config),
        config.enabled && config.recall_enabled ==> (entities_take_part(Some(query), config)
            <==> trimmed(query).len() > 0),
{
}

/// The header of a trace holds what was asked for and how much came out, each in the
/// column of its name.
pub proof fn law_trace_header(
    h: TraceHeader,
    request: SearchRequest,
    fetch_k: usize,
    candidate_count: usize,
    result_count: usize,
)
    requires
        is_trace_header(h, request, fetch_k, candidate_count, result_count),
    ensures
        opt_view(h.query_text) == opt_view(request.query_text),
        h.query_embedding_dim == request.embedding_len,
        h.k == request.k,
        h.fetch_k == fetch_k,
        h.candidate_count == candidate_count,
        h.result_count == result_count,
        request.tags_or ==> h.tags_or == 1,
        !request.tags_or ==> h.tags_or == 0,
        request.time_range is None ==> h.time_start is None && h.time_end is None,
        request.time_range matches Some((start, end)) ==> h.time_start == Some(
            crate::codec::signed_bits(start) as i64,
        ) && h.time_end == Some(crate::codec::signed_bits(end) as i64),
{
}

} // verus!
