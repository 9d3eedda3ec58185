//! There is one user profile, and one summary of each category: writing one
//! again changes it in place.
use crate::enrichment::{
    community_tag, first_tagged, is_profile_written, is_summary_written, new_summary,
};
use crate::float::Single;
use crate::memory::{MemoryId, MemoryView};
use crate::table_laws::reads_as;
use crate::tables::{after_store, carries, law_store_leaves_others, law_store_then_read, Tables};
use vstd::prelude::*;

verus! {

/// Whether a list of memories has one with an identity.
pub open spec fn listed(memories: Seq<MemoryView>, id: MemoryId) -> bool {
    exists|i: int| 0 <= i < memories.len() && (#[trigger] memories[i]).id == id
}

/// Whether a list holds every stored memory, each once and as it is read.
pub open spec fn lists(db: Tables, memories: Seq<MemoryView>) -> bool {
    &&& forall|i: int|
        0 <= i < memories.len() ==> reads_as(db, (#[trigger] memories[i]).id, memories[i])
    &&& forall|i: int, j: int|
        0 <= i < j < memories.len() ==> (#[trigger] memories[i]).id != (#[trigger] memories[j]).id
    &&& forall|id: MemoryId| #[trigger] db.memories.contains_key(id) ==> listed(memories, id)
}

/// Whether at most one stored memory carries a tag.
pub open spec fn at_most_one(db: Tables, tag: Seq<char>) -> bool {
    forall|a: MemoryId, b: MemoryId| #[trigger]
        carries(db, a, tag) && #[trigger] carries(db, b, tag) ==> a == b
}

/// Whether exactly one stored memory carries a tag: the given one.
pub open spec fn exactly_one(db: Tables, tag: Seq<char>, id: MemoryId) -> bool {
    forall|x: MemoryId| #[trigger] carries(db, x, tag) <==> x == id
}

/// The identities of a list of memories.
pub open spec fn ids_of(memories: Seq<MemoryView>) -> Seq<MemoryId> {
    memories.map_values(|m: MemoryView| m.id)
}

proof fn lemma_first_tagged(memories: Seq<MemoryView>, tag: Seq<char>)
    ensures
        match first_tagged(memories, tag) {
            Some(i) => {
                &&& 0 <= i < memories.len()
                &&& memories[i].tags.contains(tag)
                &&& forall|j: int| 0 <= j < i ==> !(#[trigger] memories[j]).tags.contains(tag)
            },
            None => forall|j: int|
                0 <= j < memories.len() ==> !(#[trigger] memories[j]).tags.contains(tag),
        },
    decreases memories.len(),
{
    if memories.len() > 0 {
        let rest = memories.drop_last();
        lemma_first_tagged(rest, tag);
        assert forall|j: int| 0 <= j < rest.len() implies rest[j] == #[trigger] memories[j] by {}
    }
}

/// What a list of the stored memories says of a tag.
proof fn lemma_listed_tags(db: Tables, memories: Seq<MemoryView>, tag: Seq<char>)
    requires
        lists(db, memories),
    ensures
        forall|i: int|
            0 <= i < memories.len() ==> ((#[trigger] memories[i]).tags.contains(tag) <==> carries(
                db,
                memories[i].id,
                tag,
            )),
        first_tagged(memories, tag) is None <==> forall|x: MemoryId| !#[trigger] carries(
            db,
            x,
            tag,
        ),
{
    lemma_first_tagged(memories, tag);
    assert forall|i: int| 0 <= i < memories.len() implies ((#[trigger] memories[i]).tags.contains(
        tag,
    ) <==> carries(db, memories[i].id, tag)) by {
        assert(reads_as(db, memories[i].id, memories[i]));
    }
    if first_tagged(memories, tag) is None {
        assert forall|x: MemoryId| !#[trigger] carries(db, x, tag) by {
            if carries(db, x, tag) {
                assert(listed(memories, x));
                let i = choose|i: int| 0 <= i < memories.len() && (#[trigger] memories[i]).id == x;
                assert(memories[i].tags.contains(tag));
            }
        }
    } else {
        let i = first_tagged(memories, tag)->0;
        assert(carries(db, memories[i].id, tag));
    }
}

/// Whether a memory takes the place of the first one with a tag, or is a new one
/// with the tag.
spec fn takes_place(
    memories: Seq<MemoryView>,
    tag: Seq<char>,
    text: Seq<char>,
    m: MemoryView,
) -> bool {
    &&& m.content == text
    &&& match first_tagged(memories, tag) {
        Some(i) => m.id == memories[i].id && m.tags == memories[i].tags,
        None => m.tags.contains(tag),
    }
}

/// What storing such a memory leaves.
proof fn lemma_place_taken(
    db: Tables,
    memories: Seq<MemoryView>,
    tag: Seq<char>,
    text: Seq<char>,
    m: MemoryView,
    dim: usize,
)
    requires
        lists(db, memories),
        takes_place(memories, tag, text, m),
    ensures
        ({
            let after = after_store(db, m, dim);
            &&& after.memories.contains_key(m.id)
            &&& after.memories[m.id].content == text
            &&& forall|x: MemoryId| #[trigger]
                carries(after, x, tag) <==> x == m.id || carries(db, x, tag)
            &&& first_tagged(memories, tag) is Some ==> after.memories.dom() == db.memories.dom()
                && carries(db, m.id, tag)
            &&& first_tagged(memories, tag) is None ==> after.memories.dom()
                == db.memories.dom().insert(m.id)
        }),
{
    let after = after_store(db, m, dim);
    lemma_first_tagged(memories, tag);
    lemma_listed_tags(db, memories, tag);
    law_store_then_read(db, m, dim);
    assert forall|x: MemoryId| #[trigger] carries(after, x, tag) <==> x == m.id || carries(
        db,
        x,
        tag,
    ) by {
        if x == m.id {
            assert(after.tags.contains((m.id, tag)) <==> m.tags.contains(tag));
        } else {
            law_store_leaves_others(db, m, dim, x);
            assert(after.tags.contains((x, tag)) <==> db.tags.contains((x, tag)));
        }
    }
    assert forall|x: MemoryId| after.memories.contains_key(x) <==> x == m.id
        || db.memories.contains_key(x) by {
        if x != m.id {
            law_store_leaves_others(db, m, dim, x);
        }
    }
    if let Some(i) = first_tagged(memories, tag) {
        assert(reads_as(db, memories[i].id, memories[i]));
        assert(after.memories.dom() =~= db.memories.dom());
    } else {
        assert(after.memories.dom() =~= db.memories.dom().insert(m.id));
    }
}

/// What storing such a memory twice leaves.
proof fn lemma_place_kept(
    db: Tables,
    memories: Seq<MemoryView>,
    again: Seq<MemoryView>,
    tag: Seq<char>,
    texts: (Seq<char>, Seq<char>),
    first: MemoryView,
    second: MemoryView,
    dims: (usize, usize),
)
    requires
        lists(db, memories),
        takes_place(memories, tag, texts.0, first),
        lists(after_store(db, first, dims.0), again),
        takes_place(again, tag, texts.1, second),
        at_most_one(db, tag) || ids_of(again) == ids_of(memories),
    ensures
        ({
            let mid = after_store(db, first, dims.0);
            let after = after_store(mid, second, dims.1);
            &&& second.id == first.id
            &&& after.memories.dom() == mid.memories.dom()
            &&& after.memories[first.id].content == texts.1
        }),
{
    let mid = after_store(db, first, dims.0);
    lemma_place_taken(db, memories, tag, texts.0, first, dims.0);
    lemma_place_taken(mid, again, tag, texts.1, second, dims.1);
    lemma_first_tagged(memories, tag);
    lemma_listed_tags(db, memories, tag);
    lemma_first_tagged(again, tag);
    lemma_listed_tags(mid, again, tag);
    assert(carries(mid, first.id, tag));
    let j = first_tagged(again, tag)->0;
    assert(carries(mid, again[j].id, tag));
    if at_most_one(db, tag) {
        if first_tagged(memories, tag) is None {
            assert(!carries(db, again[j].id, tag));
        } else {
            assert(carries(db, first.id, tag));
        }
    } else {
        let i = first_tagged(memories, tag)->0;
        assert(again.len() == ids_of(again).len() == ids_of(memories).len());
        assert forall|n: int| 0 <= n < memories.len() implies (#[trigger] again[n]).id
            == memories[n].id by {
            assert(ids_of(again)[n] == ids_of(memories)[n]);
        }
        assert(again[i].id == first.id);
        assert(again[i].tags.contains(tag));
        if j < i {
            assert(again[j].id == memories[j].id);
            assert(memories[j].id != memories[i].id);
            assert(!memories[j].tags.contains(tag));
            assert(carries(db, memories[j].id, tag));
        }
        assert(i == j);
    }
}

// ---------------------------------------------------------------------------
// The user profile
// ---------------------------------------------------------------------------
proof fn lemma_profile(
    memories: Seq<MemoryView>,
    text: Seq<char>,
    embedding: Option<Seq<Single>>,
    m: MemoryView,
)
    requires
        is_profile_written(memories, text, embedding, m),
    ensures
        takes_place(memories, "user_profile"@, text, m),
{
    if first_tagged(memories, "user_profile"@) is None {
        assert(m.tags[0] == "user_profile"@);
    }
}

/// After the user profile was written, exactly one memory carries its tag, and it
/// has the text; it is found as the profile. Where there was one, it is that one,
/// and no memory is added.
pub proof fn law_one_profile(
    db: Tables,
    memories: Seq<MemoryView>,
    text: Seq<char>,
    embedding: Option<Seq<Single>>,
    m: MemoryView,
    dim: usize,
    again: Seq<MemoryView>,
)
    requires
        lists(db, memories),
        at_most_one(db, "user_profile"@),
        is_profile_written(memories, text, embedding, m),
        lists(after_store(db, m, dim), again),
    ensures
        ({
            let tag = "user_profile"@;
            let after = after_store(db, m, dim);
            &&& exactly_one(after, tag, m.id)
            &&& forall|x: MemoryId| #[trigger] carries(db, x, tag) ==> x == m.id
                && after.memories.dom() == db.memories.dom()
            &&& (forall|x: MemoryId| !#[trigger] carries(db, x, tag)) ==> after.memories.dom()
                == db.memories.dom().insert(m.id)
            &&& first_tagged(again, tag) matches Some(i) && 0 <= i < again.len() && again[i].id
                == m.id && again[i].content == text
        }),
{
    let tag = "user_profile"@;
    let after = after_store(db, m, dim);
    lemma_profile(memories, text, embedding, m);
    lemma_place_taken(db, memories, tag, text, m, dim);
    lemma_listed_tags(db, memories, tag);
    lemma_found(after, again, tag, m.id);
}

proof fn lemma_found(db: Tables, memories: Seq<MemoryView>, tag: Seq<char>, id: MemoryId)
    requires
        lists(db, memories),
        exactly_one(db, tag, id),
    ensures
        first_tagged(memories, tag) matches Some(i) && 0 <= i < memories.len() && memories[i].id
            == id && memories[i].content == db.memories[id].content,
{
    lemma_first_tagged(memories, tag);
    lemma_listed_tags(db, memories, tag);
    assert(carries(db, id, tag));
    let i = first_tagged(memories, tag)->0;
    assert(carries(db, memories[i].id, tag));
    assert(reads_as(db, memories[i].id, memories[i]));
}

/// Writing the user profile a second time keeps its identity and the number of
/// memories; it then has the second text.
pub proof fn law_profile_is_kept(
    db: Tables,
    memories: Seq<MemoryView>,
    first: (Seq<char>, Option<Seq<Single>>, MemoryView, usize),
    again: Seq<MemoryView>,
    second: (Seq<char>, Option<Seq<Single>>, MemoryView, usize),
)
    requires
        lists(db, memories),
        is_profile_written(memories, first.0, first.1, first.2),
        lists(after_store(db, first.2, first.3), again),
        is_profile_written(again, second.0, second.1, second.2),
        at_most_one(db, "user_profile"@) || ids_of(again) == ids_of(memories),
    ensures
        ({
            let mid = after_store(db, first.2, first.3);
            let after = after_store(mid, second.2, second.3);
            &&& second.2.id == first.2.id
            &&& after.memories.dom() == mid.memories.dom()
            &&& after.memories[first.2.id].content == second.0
        }),
{
    lemma_profile(memories, first.0, first.1, first.2);
    lemma_profile(again, second.0, second.1, second.2);
    lemma_place_kept(
        db,
        memories,
        again,
        "user_profile"@,
        (first.0, second.0),
        first.2,
        second.2,
        (first.3, second.3),
    );
}

// ---------------------------------------------------------------------------
// Summaries
// ---------------------------------------------------------------------------
proof fn lemma_summary(
    memories: Seq<MemoryView>,
    category: Seq<char>,
    text: Seq<char>,
    embedding: Option<Seq<Single>>,
    m: MemoryView,
)
    requires
        is_summary_written(memories, category, text, embedding, m),
    ensures
        takes_place(memories, community_tag(category), text, m),
{
    if first_tagged(memories, community_tag(category)) is None {
        assert(m == new_summary(m.id, m.agent_id, category, text, embedding, m.created_at));
        assert(m.tags[1] == community_tag(category));
    }
}

/// After the summary of a category was written, exactly one memory carries the
/// tag of the category, and it has the text; it is found as the summary. Where
/// there was one, it is that one, and no memory is added.
pub proof fn law_one_summary(
    db: Tables,
    memories: Seq<MemoryView>,
    category: Seq<char>,
    text: Seq<char>,
    embedding: Option<Seq<Single>>,
    m: MemoryView,
    dim: usize,
    again: Seq<MemoryView>,
)
    requires
        lists(db, memories),
        at_most_one(db, community_tag(category)),
        is_summary_written(memories, category, text, embedding, m),
        lists(after_store(db, m, dim), again),
    ensures
        ({
            let tag = community_tag(category);
            let after = after_store(db, m, dim);
            &&& exactly_one(after, tag, m.id)
            &&& forall|x: MemoryId| #[trigger] carries(db, x, tag) ==> x == m.id
                && after.memories.dom() == db.memories.dom()
            &&& (forall|x: MemoryId| !#[trigger] carries(db, x, tag)) ==> after.memories.dom()
                == db.memories.dom().insert(m.id)
            &&& first_tagged(again, tag) matches Some(i) && 0 <= i < again.len() && again[i].id
                == m.id && again[i].content == text
        }),
{
    let tag = community_tag(category);
    let after = after_store(db, m, dim);
    lemma_summary(memories, category, text, embedding, m);
    lemma_place_taken(db, memories, tag, text, m, dim);
    lemma_listed_tags(db, memories, tag);
    lemma_found(after, again, tag, m.id);
}

/// Writing the summary of a category a second time keeps its identity and the
/// number of memories; it then has the second text.
pub proof fn law_summary_is_kept(
    db: Tables,
    memories: Seq<MemoryView>,
    category: Seq<char>,
    first: (Seq<char>, Option<Seq<Single>>, MemoryView, usize),
    again: Seq<MemoryView>,
    second: (Seq<char>, Option<Seq<Single>>, MemoryView, usize),
)
    requires
        lists(db, memories),
        is_summary_written(memories, category, first.0, first.1, first.2),
        lists(after_store(db, first.2, first.3), again),
        is_summary_written(again, category, second.0, second.1, second.2),
        at_most_one(db, community_tag(category)) || ids_of(again) == ids_of(memories),
    ensures
        ({
            let mid = after_store(db, first.2, first.3);
            let after = after_store(mid, second.2, second.3);
            &&& second.2.id == first.2.id
            &&& after.memories.dom() == mid.memories.dom()
            &&& after.memories[first.2.id].content == second.0
        }),
{
    lemma_summary(memories, category, first.0, first.1, first.2);
    lemma_summary(again, category, second.0, second.1, second.2);
    lemma_place_kept(
        db,
        memories,
        again,
        community_tag(category),
        (first.0, second.0),
        first.2,
        second.2,
        (first.3, second.3),
    );
}

} // verus!
