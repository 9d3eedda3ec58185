//! What a recall gives, in terms of the edges and the validity of each memory.
use crate::memory::EdgeType;
use crate::recall::{kept, recalled, RecallFacts};
use crate::search::ScoredHit;
use vstd::prelude::*;

verus! {

/// A ranked memory is kept if and only if it is not known to be invalid and no
/// edge into it is both valid and one that supersedes or contradicts it. `places`
/// are the places of the memories that are kept: these stay in their order, and a
/// recall gives the first of them, exactly as many as are wanted or all where
/// there are fewer.
pub proof fn law_recall_keeps(ranked: Seq<ScoredHit>, facts: Seq<RecallFacts>, k: usize) -> (places:
    Seq<int>)
    requires
        ranked.len() == facts.len(),
    ensures
        kept(ranked, facts).len() == places.len(),
        forall|i: int, j: int|
            0 <= i < j < places.len() ==> #[trigger] places[i] < #[trigger] places[j],
        forall|i: int|
            0 <= i < places.len() ==> 0 <= #[trigger] places[i] < ranked.len() && kept(
                ranked,
                facts,
            )[i] == ranked[places[i]],
        forall|j: int|
            0 <= j < ranked.len() ==> (#[trigger] places.contains(j) <==> facts[j].valid != Some(
                false,
            ) && forall|e: int|
                0 <= e < facts[j].incoming@.len() ==> !((#[trigger] facts[j].incoming@[e]).valid
                    && (facts[j].incoming@[e].edge_type == EdgeType::Supersedes
                    || facts[j].incoming@[e].edge_type == EdgeType::Contradicts))),
        recalled(ranked, facts, k).len() == if k < places.len() {
            k as nat
        } else {
            places.len()
        },
        forall|i: int|
            0 <= i < recalled(ranked, facts, k).len() ==> #[trigger] recalled(ranked, facts, k)[i]
                == ranked[places[i]],
    decreases ranked.len(),
{
    if ranked.len() == 0 {
        Seq::empty()
    } else {
        let head = ranked.drop_last();
        let known = facts.drop_last();
        let n = ranked.len() - 1;
        let before = law_recall_keeps(head, known, k);
        let last = facts[n];
        assert(facts.last() == last);
        assert forall|j: int| 0 <= j < n implies (#[trigger] before.contains(j)
            <==> facts[j].valid != Some(false) && forall|e: int|
            0 <= e < facts[j].incoming@.len() ==> !((#[trigger] facts[j].incoming@[e]).valid && (
            facts[j].incoming@[e].edge_type == EdgeType::Supersedes
                || facts[j].incoming@[e].edge_type == EdgeType::Contradicts))) by {
            assert(known[j] == facts[j]);
        }
        assert(!before.contains(n)) by {
            if before.contains(n) {
                let i = choose|i: int| 0 <= i < before.len() && before[i] == n;
                assert(before[i] < head.len());
            }
        }
        if crate::recall::recallable(last) {
            let places = before.push(n);
            assert(places.contains(n)) by {
                assert(places[before.len() as int] == n);
            }
            assert forall|j: int| 0 <= j < n implies (before.contains(j) <==> #[trigger]
            places.contains(j)) by {
                if before.contains(j) {
                    let i = choose|i: int| 0 <= i < before.len() && before[i] == j;
                    assert(places[i] == j);
                }
                if places.contains(j) {
                    let i = choose|i: int| 0 <= i < places.len() && places[i] == j;
                    assert(before[i] == j);
                }
            }
            places
        } else {
            before
        }
    }
}

/// A ranked memory that is not known to be invalid, and into which no edge is both
/// valid and one that supersedes or contradicts it, is among the memories that a
/// recall keeps. Where no more are kept than are wanted, the recall gives it.
pub proof fn law_recall_gives(ranked: Seq<ScoredHit>, facts: Seq<RecallFacts>, k: usize, j: int)
    requires
        ranked.len() == facts.len(),
        0 <= j < ranked.len(),
        facts[j].valid != Some(false),
        forall|e: int|
            0 <= e < facts[j].incoming@.len() ==> !((#[trigger] facts[j].incoming@[e]).valid && (
            facts[j].incoming@[e].edge_type == EdgeType::Supersedes
                || facts[j].incoming@[e].edge_type == EdgeType::Contradicts)),
    ensures
        kept(ranked, facts).contains(ranked[j]),
        kept(ranked, facts).len() <= k ==> recalled(ranked, facts, k).contains(ranked[j]),
{
    let places = law_recall_keeps(ranked, facts, k);
    assert(places.contains(j));
    let i = choose|i: int| 0 <= i < places.len() && places[i] == j;
    assert(kept(ranked, facts)[i] == ranked[j]);
    if kept(ranked, facts).len() <= k {
        assert(recalled(ranked, facts, k)[i] == ranked[j]);
    }
}

/// A memory is not given where one edge into it is valid and supersedes or
/// contradicts it, or where it is known to be invalid, and its place in the ranking
/// is the only one.
pub proof fn law_recall_withholds(
    ranked: Seq<ScoredHit>,
    facts: Seq<RecallFacts>,
    k: usize,
    j: int,
    e: int,
)
    requires
        ranked.len() == facts.len(),
        0 <= j < ranked.len(),
        forall|i: int| 0 <= i < ranked.len() && i != j ==> #[trigger] ranked[i] != ranked[j],
        facts[j].valid == Some(false) || (0 <= e < facts[j].incoming@.len()
            && facts[j].incoming@[e].valid && (facts[j].incoming@[e].edge_type
            == EdgeType::Supersedes || facts[j].incoming@[e].edge_type == EdgeType::Contradicts)),
    ensures
        !kept(ranked, facts).contains(ranked[j]),
        !recalled(ranked, facts, k).contains(ranked[j]),
{
    let places = law_recall_keeps(ranked, facts, k);
    if kept(ranked, facts).contains(ranked[j]) {
        let i = choose|i: int|
            0 <= i < kept(ranked, facts).len() && kept(ranked, facts)[i] == ranked[j];
        assert(ranked[places[i]] == ranked[j]);
        assert(places[i] == j);
        assert(places.contains(j));
    }
    if recalled(ranked, facts, k).contains(ranked[j]) {
        let i = choose|i: int|
            0 <= i < recalled(ranked, facts, k).len() && recalled(ranked, facts, k)[i]
                == ranked[j];
        assert(kept(ranked, facts)[i] == ranked[j]);
    }
}

} // verus!
