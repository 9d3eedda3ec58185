//! Lists of named things, searched by name.
use crate::order::views_of;
use crate::text::text_eq;
use vstd::prelude::*;

verus! {

/// Things that have a name and hold something under it.
pub trait Keyed: View<V = (Seq<char>, <Self as Keyed>::Held)> + Sized {
    /// What is held under the name.
    type Held;

    /// The name.
    fn key(&self) -> (res: &str)
        ensures
            res@ == self@.0,
    ;
}

/// The position of the first thing with a name.
pub open spec fn key_index<X>(map: Seq<(Seq<char>, X)>, key: Seq<char>) -> Option<int>
    decreases map.len(),
{
    if map.len() == 0 {
        None
    } else {
        match key_index(map.drop_last(), key) {
            Some(i) => Some(i),
            None => if map.last().0 == key {
                Some(map.len() - 1)
            } else {
                None
            },
        }
    }
}

/// The position that is found holds the name, and none before it does; where
/// none is found, nothing has the name.
pub proof fn law_key_index<X>(map: Seq<(Seq<char>, X)>, key: Seq<char>)
    ensures
        match key_index(map, key) {
            Some(i) => 0 <= i < map.len() && map[i].0 == key && forall|j: int|
                0 <= j < i ==> (#[trigger] map[j]).0 != key,
            None => forall|j: int| 0 <= j < map.len() ==> (#[trigger] map[j]).0 != key,
        },
    decreases map.len(),
{
    if map.len() > 0 {
        let rest = map.drop_last();
        law_key_index(rest, key);
        assert forall|j: int| 0 <= j < rest.len() implies #[trigger] map[j] == rest[j] by {}
    }
}

proof fn lemma_key_index_prefix<X>(map: Seq<(Seq<char>, X)>, key: Seq<char>, n: int)
    requires
        0 <= n <= map.len(),
        key_index(map.take(n), key) is Some,
    ensures
        key_index(map, key) == key_index(map.take(n), key),
    decreases map.len() - n,
{
    if n < map.len() {
        assert(map.take(n + 1).drop_last() =~= map.take(n));
        lemma_key_index_prefix(map, key, n + 1);
    } else {
        assert(map.take(n) =~= map);
    }
}

/// The position of the first thing with a name.
pub fn find_key<T: Keyed>(map: &Vec<T>, key: &str) -> (res: Option<usize>)
    ensures
        match res {
            Some(i) => i < map@.len() && key_index(views_of(map@), key@) == Some(i as int),
            None => key_index(views_of(map@), key@) is None,
        },
{
    let ghost all = views_of(map@);
    for i in 0..map.len()
        invariant
            all == views_of(map@),
            key_index(all.take(i as int), key@) is None,
    {
        proof {
            assert(all.take(i + 1).drop_last() =~= all.take(i as int));
            assert(all.take(i + 1).last() == map@[i as int]@);
        }
        if text_eq(map[i].key(), key) {
            proof {
                lemma_key_index_prefix(all, key@, i + 1);
            }
            return Some(i);
        }
    }
    proof {
        assert(all.take(all.len() as int) =~= all);
    }
    None
}

} // verus!
