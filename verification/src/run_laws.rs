//! What the runs over all memories change, in terms of the memories and what was
//! decided of each.
use crate::float::Single;
use crate::lifecycle::ArchivalDecision;
use crate::memory::{MemoryView, Timestamp};
use crate::order::views_of;
use crate::policy_runs::{
    archive_change, archive_changes, archived, decay_change, decay_changes, is_global_run,
    GlobalRun,
};
use vstd::prelude::*;

verus! {

/// An archive run updates exactly the memories that were not archived yet and whose
/// decision is to archive or to delete, and lists exactly these as affected.
/// `places` are their places: they stay in their order. Each is stored with the
/// archive tag behind its own, with a salience of at most 0.02 and of at most its
/// own, and is otherwise as it was.
pub proof fn law_archive_run(
    run: GlobalRun,
    run_id: Seq<char>,
    memories: Seq<MemoryView>,
    decisions: Seq<ArchivalDecision>,
    now: Timestamp,
) -> (places: Seq<int>)
    requires
        memories.len() == decisions.len(),
        is_global_run(
            run,
            "archive"@,
            run_id,
            archive_changes(run_id, memories, decisions, now),
            now,
        ),
    ensures
        forall|k: int|
            0 <= k < memories.len() ==> (#[trigger] places.contains(k)
                <==> !memories[k].tags.contains("archived"@) && (decisions[k] is Archive
                || decisions[k] is Delete)),
        forall|i: int, j: int|
            0 <= i < j < places.len() ==> #[trigger] places[i] < #[trigger] places[j],
        run.updates@.len() == places.len(),
        run.affected@.memory_ids.len() == places.len(),
        run.affected@.claim_ids.len() == 0,
        run.affected@.relationship_ids.len() == 0,
        run.affected@.entity_ids.len() == 0,
        run.actions@.len() == places.len(),
        run.lifecycle_events@.len() == places.len(),
        forall|i: int|
            0 <= i < places.len() ==> {
                let m = memories[#[trigger] places[i]];
                let stored = run.updates@[i]@;
                &&& 0 <= places[i] < memories.len()
                &&& run.affected@.memory_ids[i] == m.id
                &&& run.lifecycle_events@[i]@.memory_id == m.id
                &&& run.actions@[i]@.target_id == Some(crate::ids::uuid_text(m.id.value))
                &&& stored.tags == m.tags.push("archived"@)
                &&& !(Single { bits: 0x3ca3_d70a }).less(stored.salience)
                &&& !m.salience.less(stored.salience)
                &&& stored.salience == m.salience || stored.salience.bits == 0x3ca3_d70a
                &&& stored == MemoryView { tags: stored.tags, salience: stored.salience, ..m }
            },
{
    let changes = archive_changes(run_id, memories, decisions, now);
    let places = lemma_archive_places(run_id, memories, decisions, now);
    assert(run.updates@.len() == views_of(run.updates@).len());
    assert(run.actions@.len() == views_of(run.actions@).len());
    assert(run.lifecycle_events@.len() == views_of(run.lifecycle_events@).len());
    assert forall|i: int| 0 <= i < places.len() implies {
        let m = memories[#[trigger] places[i]];
        let stored = run.updates@[i]@;
        &&& 0 <= places[i] < memories.len()
        &&& run.affected@.memory_ids[i] == m.id
        &&& run.lifecycle_events@[i]@.memory_id == m.id
        &&& run.actions@[i]@.target_id == Some(crate::ids::uuid_text(m.id.value))
        &&& stored == archived(m)
    } by {
        assert(changes[i] == archive_change(run_id, memories[places[i]], now));
        assert(views_of(run.updates@)[i] == changes[i].memory);
        assert(views_of(run.actions@)[i] == changes[i].action);
        assert(views_of(run.lifecycle_events@)[i] == changes[i].event);
    }
    places
}

/// The places of the memories that are archived.
pub proof fn lemma_archive_places(
    run_id: Seq<char>,
    memories: Seq<MemoryView>,
    decisions: Seq<ArchivalDecision>,
    now: Timestamp,
) -> (places: Seq<int>)
    requires
        memories.len() <= decisions.len(),
    ensures
        archive_changes(run_id, memories, decisions, now).len() == places.len(),
        forall|k: int|
            0 <= k < memories.len() ==> (#[trigger] places.contains(k)
                <==> !memories[k].tags.contains("archived"@) && (decisions[k] is Archive
                || decisions[k] is Delete)),
        forall|i: int, j: int|
            0 <= i < j < places.len() ==> #[trigger] places[i] < #[trigger] places[j],
        forall|i: int|
            0 <= i < places.len() ==> 0 <= #[trigger] places[i] < memories.len()
                && archive_changes(run_id, memories, decisions, now)[i] == archive_change(
                run_id,
                memories[places[i]],
                now,
            ),
    decreases memories.len(),
{
    if memories.len() == 0 {
        Seq::empty()
    } else {
        let head = memories.drop_last();
        let n = memories.len() - 1;
        let before = lemma_archive_places(run_id, head, decisions, now);
        let all = archive_changes(run_id, memories, decisions, now);
        assert forall|i: int| 0 <= i < before.len() implies 0 <= #[trigger] before[i]
            < memories.len() && all[i] == archive_change(run_id, memories[before[i]], now) by {
            assert(head[before[i]] == memories[before[i]]);
        }
        assert forall|k: int| 0 <= k < n implies (#[trigger] before.contains(k)
            <==> !memories[k].tags.contains("archived"@) && (decisions[k] is Archive
            || decisions[k] is Delete)) by {
            assert(head[k] == memories[k]);
        }
        lemma_places_grow(before, n);
        if !memories[n].tags.contains("archived"@) && (decisions[n] is Archive
            || decisions[n] is Delete) {
            before.push(n)
        } else {
            before
        }
    }
}

/// A place behind some places is not one of them, and joins them when it is added.
pub proof fn lemma_places_grow(before: Seq<int>, n: int)
    requires
        forall|i: int| 0 <= i < before.len() ==> #[trigger] before[i] < n,
    ensures
        !before.contains(n),
        before.push(n).contains(n),
        forall|k: int| k < n ==> (#[trigger] before.push(n).contains(k) <==> before.contains(k)),
{
    let after = before.push(n);
    assert(after[before.len() as int] == n);
    assert forall|k: int| k < n implies (#[trigger] after.contains(k) <==> before.contains(
        k,
    )) by {
        if before.contains(k) {
            let i = choose|i: int| 0 <= i < before.len() && before[i] == k;
            assert(after[i] == k);
        }
        if after.contains(k) {
            let i = choose|i: int| 0 <= i < after.len() && after[i] == k;
            assert(before[i] == k);
        }
    }
    if before.contains(n) {
        let i = choose|i: int| 0 <= i < before.len() && before[i] == n;
        assert(before[i] < n);
    }
}

/// A decay run updates exactly the memories that have a new salience, and lists
/// exactly these as affected. Each is stored with its new salience and is otherwise
/// as it was.
pub proof fn law_decay_run(
    run: GlobalRun,
    run_id: Seq<char>,
    memories: Seq<MemoryView>,
    decayed: Seq<Option<Single>>,
    now: Timestamp,
) -> (places: Seq<int>)
    requires
        memories.len() == decayed.len(),
        is_global_run(
            run,
            "decay"@,
            run_id,
            decay_changes(run_id, memories, decayed, now),
            now,
        ),
    ensures
        forall|k: int|
            0 <= k < memories.len() ==> (#[trigger] places.contains(k) <==> decayed[k] is Some),
        forall|i: int, j: int|
            0 <= i < j < places.len() ==> #[trigger] places[i] < #[trigger] places[j],
        run.updates@.len() == places.len(),
        run.affected@.memory_ids.len() == places.len(),
        run.affected@.claim_ids.len() == 0,
        run.affected@.relationship_ids.len() == 0,
        run.affected@.entity_ids.len() == 0,
        run.actions@.len() == places.len(),
        run.lifecycle_events@.len() == places.len(),
        forall|i: int|
            0 <= i < places.len() ==> {
                let m = memories[#[trigger] places[i]];
                let stored = run.updates@[i]@;
                &&& 0 <= places[i] < memories.len()
                &&& decayed[places[i]] == Some(stored.salience)
                &&& stored == MemoryView { salience: stored.salience, ..m }
                &&& run.affected@.memory_ids[i] == m.id
                &&& run.lifecycle_events@[i]@.memory_id == m.id
                &&& run.actions@[i]@.target_id == Some(crate::ids::uuid_text(m.id.value))
            },
{
    let changes = decay_changes(run_id, memories, decayed, now);
    let places = lemma_decay_places(run_id, memories, decayed, now);
    assert(run.updates@.len() == views_of(run.updates@).len());
    assert(run.actions@.len() == views_of(run.actions@).len());
    assert(run.lifecycle_events@.len() == views_of(run.lifecycle_events@).len());
    assert forall|i: int| 0 <= i < places.len() implies {
        let m = memories[#[trigger] places[i]];
        let stored = run.updates@[i]@;
        &&& 0 <= places[i] < memories.len()
        &&& decayed[places[i]] == Some(stored.salience)
        &&& stored == MemoryView { salience: stored.salience, ..m }
        &&& run.affected@.memory_ids[i] == m.id
        &&& run.lifecycle_events@[i]@.memory_id == m.id
        &&& run.actions@[i]@.target_id == Some(crate::ids::uuid_text(m.id.value))
    } by {
        assert(changes[i] == decay_change(run_id, memories[places[i]], decayed[places[i]]->0, now));
        assert(views_of(run.updates@)[i] == changes[i].memory);
        assert(views_of(run.actions@)[i] == changes[i].action);
        assert(views_of(run.lifecycle_events@)[i] == changes[i].event);
    }
    places
}

/// The places of the memories that decay.
pub proof fn lemma_decay_places(
    run_id: Seq<char>,
    memories: Seq<MemoryView>,
    decayed: Seq<Option<Single>>,
    now: Timestamp,
) -> (places: Seq<int>)
    requires
        memories.len() <= decayed.len(),
    ensures
        decay_changes(run_id, memories, decayed, now).len() == places.len(),
        forall|k: int|
            0 <= k < memories.len() ==> (#[trigger] places.contains(k) <==> decayed[k] is Some),
        forall|i: int, j: int|
            0 <= i < j < places.len() ==> #[trigger] places[i] < #[trigger] places[j],
        forall|i: int|
            0 <= i < places.len() ==> 0 <= #[trigger] places[i] < memories.len()
                && decayed[places[i]] is Some && decay_changes(run_id, memories, decayed, now)[i]
                == decay_change(run_id, memories[places[i]], decayed[places[i]]->0, now),
    decreases memories.len(),
{
    if memories.len() == 0 {
        Seq::empty()
    } else {
        let head = memories.drop_last();
        let n = memories.len() - 1;
        let before = lemma_decay_places(run_id, head, decayed, now);
        let all = decay_changes(run_id, memories, decayed, now);
        assert forall|i: int| 0 <= i < before.len() implies 0 <= #[trigger] before[i]
            < memories.len() && all[i] == decay_change(
            run_id,
            memories[before[i]],
            decayed[before[i]]->0,
            now,
        ) by {
            assert(head[before[i]] == memories[before[i]]);
        }
        lemma_places_grow(before, n);
        if decayed[n] is Some {
            before.push(n)
        } else {
            before
        }
    }
}

} // verus!
