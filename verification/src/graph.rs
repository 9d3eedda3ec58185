//! Reading the graph of memories: edges of a node and its neighbours.
use crate::memory::{Direction, EdgeType, EdgeView, MemoryEdge, MemoryId};
use crate::order::views_of;
use crate::query::{has_id, opt_types};
use vstd::prelude::*;

verus! {

/// Whether an edge touches a node on the given side.
pub open spec fn touches(e: EdgeView, id: MemoryId, dir: Direction) -> bool {
    match dir {
        Direction::Outgoing => e.source == id,
        Direction::Incoming => e.target == id,
        Direction::Both => e.source == id || e.target == id,
    }
}

/// The condition that selects the edges of a node; the node is bound at `?1`.
pub fn edges_condition(dir: Direction) -> (res: &'static str)
    ensures
        res@ == match dir {
            Direction::Outgoing => " WHERE source = ?1"@,
            Direction::Incoming => " WHERE target = ?1"@,
            Direction::Both => " WHERE source = ?1 OR target = ?1"@,
        },
{
    match dir {
        Direction::Outgoing => " WHERE source = ?1",
        Direction::Incoming => " WHERE target = ?1",
        Direction::Both => " WHERE source = ?1 OR target = ?1",
    }
}

/// Whether an edge has one of the given types; without types any will do.
pub open spec fn type_wanted(t: EdgeType, types: Option<Seq<EdgeType>>) -> bool {
    match types {
        Some(ts) => ts.contains(t),
        None => true,
    }
}

/// The node at the other end of an edge.
pub open spec fn other_end(e: EdgeView, id: MemoryId) -> MemoryId {
    if e.source == id {
        e.target
    } else {
        e.source
    }
}

/// Whether an edge leads from a node to a neighbour.
pub open spec fn links(
    e: EdgeView,
    id: MemoryId,
    types: Option<Seq<EdgeType>>,
    dir: Direction,
) -> bool {
    touches(e, id, dir) && type_wanted(e.edge_type, types)
}

/// The neighbours of a node, each once, in the order of the edges.
pub open spec fn neighbor_ids(
    edges: Seq<EdgeView>,
    id: MemoryId,
    types: Option<Seq<EdgeType>>,
    dir: Direction,
) -> Seq<MemoryId>
    decreases edges.len(),
{
    if edges.len() == 0 {
        Seq::empty()
    } else {
        let rest = neighbor_ids(edges.drop_last(), id, types, dir);
        let e = edges.last();
        if links(e, id, types, dir) && !rest.contains(other_end(e, id)) {
            rest.push(other_end(e, id))
        } else {
            rest
        }
    }
}

fn has_type(types: &Vec<EdgeType>, t: EdgeType) -> (res: bool)
    ensures
        res == types@.contains(t),
{
    for i in 0..types.len()
        invariant
            forall|j: int| 0 <= j < i ==> types@[j] != t,
    {
        if types[i] == t {
            assert(types@[i as int] == t);
            return true;
        }
    }
    false
}

fn is_touching(e: &MemoryEdge, id: MemoryId, dir: Direction) -> (res: bool)
    ensures
        res == touches(e@, id, dir),
{
    match dir {
        Direction::Outgoing => e.source == id,
        Direction::Incoming => e.target == id,
        Direction::Both => e.source == id || e.target == id,
    }
}

/// Distinct neighbour ids of `id` over edges of the given types (all types
/// where none are given) in the chosen direction.
pub fn neighbors(
    edges: &Vec<MemoryEdge>,
    id: MemoryId,
    edge_types: &Option<Vec<EdgeType>>,
    dir: Direction,
) -> (res: Vec<MemoryId>)
    ensures
        res@ == neighbor_ids(views_of(edges@), id, opt_types(*edge_types), dir),
{
    let ghost all = views_of(edges@);
    let ghost types = opt_types(*edge_types);
    let mut out: Vec<MemoryId> = Vec::new();
    for i in 0..edges.len()
        invariant
            all == views_of(edges@),
            types == opt_types(*edge_types),
            out@ == neighbor_ids(all.take(i as int), id, types, dir),
    {
        let e = &edges[i];
        proof {
            assert(all.take(i + 1).drop_last() =~= all.take(i as int));
            assert(all[i as int] == e@);
        }
        let wanted = match edge_types {
            Some(ts) => has_type(ts, e.edge_type),
            None => true,
        };
        if is_touching(e, id, dir) && wanted {
            let other = if e.source == id {
                e.target
            } else {
                e.source
            };
            if !has_id(&out, other) {
                out.push(other);
            }
        }
    }
    proof {
        assert(all.take(all.len() as int) =~= all);
    }
    out
}

/// The neighbours of a node are distinct, and they are the other ends of the
/// edges that lead from it.
pub proof fn law_neighbors(
    edges: Seq<EdgeView>,
    id: MemoryId,
    types: Option<Seq<EdgeType>>,
    dir: Direction,
)
    ensures
        neighbor_ids(edges, id, types, dir).no_duplicates(),
        forall|n: MemoryId| #[trigger]
            neighbor_ids(edges, id, types, dir).contains(n) <==> exists|i: int|
                0 <= i < edges.len() && links(#[trigger] edges[i], id, types, dir) && other_end(
                    edges[i],
                    id,
                ) == n,
    decreases edges.len(),
{
    if edges.len() > 0 {
        let head = edges.drop_last();
        let e = edges.last();
        let rest = neighbor_ids(head, id, types, dir);
        let out = neighbor_ids(edges, id, types, dir);
        law_neighbors(head, id, types, dir);
        if links(e, id, types, dir) && !rest.contains(other_end(e, id)) {
            assert forall|i: int, j: int|
                0 <= i < out.len() && 0 <= j < out.len() && i != j implies out[i] != out[j] by {
                if i < rest.len() {
                    assert(rest.contains(rest[i]));
                }
                if j < rest.len() {
                    assert(rest.contains(rest[j]));
                }
            }
        }
        assert forall|n: MemoryId| #[trigger]
            out.contains(n) <==> exists|i: int|
                0 <= i < edges.len() && links(#[trigger] edges[i], id, types, dir) && other_end(
                    edges[i],
                    id,
                ) == n by {
            if out.contains(n) {
                let k = choose|k: int| 0 <= k < out.len() && out[k] == n;
                if k < rest.len() {
                    assert(rest[k] == n);
                    assert(rest.contains(n));
                    let i = choose|i: int|
                        0 <= i < head.len() && links(#[trigger] head[i], id, types, dir)
                            && other_end(head[i], id) == n;
                    assert(edges[i] == head[i]);
                    assert(links(edges[i], id, types, dir));
                } else {
                    assert(links(edges[edges.len() - 1], id, types, dir));
                }
            }
            if exists|i: int|
                0 <= i < edges.len() && links(#[trigger] edges[i], id, types, dir) && other_end(
                    edges[i],
                    id,
                ) == n {
                let i = choose|i: int|
                    0 <= i < edges.len() && links(#[trigger] edges[i], id, types, dir)
                        && other_end(edges[i], id) == n;
                if i < head.len() {
                    assert(head[i] == edges[i]);
                    assert(links(head[i], id, types, dir));
                    assert(rest.contains(n));
                    let m = choose|m: int| 0 <= m < rest.len() && rest[m] == n;
                    assert(out[m] == n);
                } else if !rest.contains(n) {
                    assert(out[rest.len() as int] == n);
                } else {
                    let m = choose|m: int| 0 <= m < rest.len() && rest[m] == n;
                    assert(out[m] == n);
                }
            }
        }
    }
}

/// The neighbours in both directions are those of either direction.
pub proof fn law_both_directions(
    edges: Seq<EdgeView>,
    id: MemoryId,
    types: Option<Seq<EdgeType>>,
    n: MemoryId,
)
    ensures
        neighbor_ids(edges, id, types, Direction::Both).contains(n) <==> (neighbor_ids(
            edges,
            id,
            types,
            Direction::Outgoing,
        ).contains(n) || neighbor_ids(edges, id, types, Direction::Incoming).contains(n)),
{
    law_neighbors(edges, id, types, Direction::Both);
    law_neighbors(edges, id, types, Direction::Outgoing);
    law_neighbors(edges, id, types, Direction::Incoming);
    if neighbor_ids(edges, id, types, Direction::Both).contains(n) {
        let i = choose|i: int|
            0 <= i < edges.len() && links(#[trigger] edges[i], id, types, Direction::Both)
                && other_end(edges[i], id) == n;
        assert(links(edges[i], id, types, Direction::Outgoing) || links(
            edges[i],
            id,
            types,
            Direction::Incoming,
        ));
    }
    if neighbor_ids(edges, id, types, Direction::Outgoing).contains(n) {
        let i = choose|i: int|
            0 <= i < edges.len() && links(#[trigger] edges[i], id, types, Direction::Outgoing)
                && other_end(edges[i], id) == n;
        assert(links(edges[i], id, types, Direction::Both));
    }
    if neighbor_ids(edges, id, types, Direction::Incoming).contains(n) {
        let i = choose|i: int|
            0 <= i < edges.len() && links(#[trigger] edges[i], id, types, Direction::Incoming)
                && other_end(edges[i], id) == n;
        assert(links(edges[i], id, types, Direction::Both));
    }
}

} // verus!
