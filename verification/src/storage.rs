//! The storage facade: memories under handles that are their identities.
use crate::memory::{MemoryId, MemoryNode};
use vstd::prelude::*;

verus! {

/// Handle of a stored memory: its identity.
pub type StorageId = MemoryId;

/// Each identity with its handle.
pub open spec fn with_handles(ids: Seq<MemoryId>) -> Seq<(MemoryId, StorageId)> {
    ids.map_values(|id: MemoryId| (id, id))
}

/// The stored memories with their handles, none where they could not be listed.
pub fn scan_all_memories(ids: Option<Vec<MemoryId>>) -> (res: Vec<(MemoryId, StorageId)>)
    ensures
        res@ == match ids {
            Some(v) => with_handles(v@),
            None => Seq::empty(),
        },
{
    let mut out: Vec<(MemoryId, StorageId)> = Vec::new();
    if let Some(list) = ids {
        assert(out@ =~= with_handles(list@).take(0));
        for i in 0..list.len()
            invariant
                out@ == with_handles(list@).take(i as int),
        {
            out.push((list[i], list[i]));
            assert(out@ =~= with_handles(list@).take(i + 1));
        }
        assert(with_handles(list@).take(list.len() as int) =~= with_handles(list@));
    }
    out
}

/// The handles of memories that were stored, in their order.
pub fn stored_ids(nodes: &Vec<MemoryNode>) -> (res: Vec<StorageId>)
    ensures
        res@ == nodes@.map_values(|m: MemoryNode| m.id),
{
    let ghost all = nodes@.map_values(|m: MemoryNode| m.id);
    let mut out: Vec<StorageId> = Vec::new();
    assert(out@ =~= all.take(0));
    for i in 0..nodes.len()
        invariant
            all == nodes@.map_values(|m: MemoryNode| m.id),
            out@ == all.take(i as int),
    {
        out.push(nodes[i].id);
        assert(out@ =~= all.take(i + 1));
    }
    assert(all.take(all.len() as int) =~= all);
    out
}

} // verus!
