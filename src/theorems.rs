use vstd::prelude::*;
use crate::db::{
    lemma_add_post_wf, lemma_add_tag_wf, lemma_hash_index, lemma_tag_id_named, lemma_tag_post, lemma_untag_post, matching, keeps_pair,
    StoreState,
};
use crate::hash::blake3_digest;
use crate::post::PostRecord;
use crate::seqs::lemma_filter_members;

verus! {

/// Ingesting the same bytes twice, under any names and extensions, ends with
/// the same post id both times; the second time stores nothing new, so the
/// file is copied at most once.
pub proof fn ingest_same_content_same_post(
    s: StoreState,
    first: Seq<u8>,
    second: Seq<u8>,
    ext1: Option<Seq<char>>,
    name1: Seq<char>,
    ext2: Option<Seq<char>>,
    name2: Seq<char>,
)
    requires
        s.wf(),
        first == second,
        s.has_hash(blake3_digest(first)) || s.next_post < i64::MAX,
    ensures
        ({
            let s1 = s.ingest(blake3_digest(first), ext1, name1);
            &&& s1.has_hash(blake3_digest(second))
            &&& s1.ingest_id(blake3_digest(second)) == s.ingest_id(blake3_digest(first))
            &&& s1.ingest(blake3_digest(second), ext2, name2) == s1
        }),
{
    let d = blake3_digest(first);
    if !s.has_hash(d) {
        let rec = PostRecord { id: s.next_post, hash: d, extension: ext1, name: name1 };
        lemma_add_post_wf(s, rec);
        let s1 = s.add_post(rec);
        let last = s.posts.len() as int;
        assert(s1.posts[last].hash == d);
        lemma_hash_index(s1, last);
    }
}

/// Giving a post a tag twice is the same as giving it once, in the snapshot's
/// tag set and in the store, so the number of tags does not change.
pub proof fn add_tag_twice_same_as_once(s: StoreState, tags: Set<Seq<char>>, post_id: int, t: Seq<char>)
    requires
        s.wf(),
        s.has_post(post_id),
        s.has_tag_name(t) || s.next_tag < i64::MAX,
    ensures
        tags.insert(t).insert(t) == tags.insert(t),
        s.tag_post(post_id, t).tag_post(post_id, t) == s.tag_post(post_id, t),
        s.tag_post(post_id, t).tag_post(post_id, t).tag_names_of(post_id).len() == s.tag_post(
            post_id,
            t,
        ).tag_names_of(post_id).len(),
{
    assert(tags.insert(t).insert(t) =~= tags.insert(t));
    lemma_tag_post(s, post_id, t);
    let s_mid = if s.has_tag_name(t) {
        s
    } else {
        s.add_tag(t)
    };
    let s1 = s.tag_post(post_id, t);
    assert(s_mid.has_tag_name(t)) by {
        if !s.has_tag_name(t) {
            assert(s_mid.tags[s.tags.len() as int].name == t);
        }
    }
    let j = choose|j: int| 0 <= j < s_mid.tags.len() && #[trigger] s_mid.tags[j].name == t;
    let g = s_mid.tag_id_named(t);
    assert(s1.tags == s_mid.tags);
    assert(s1.tags[j].name == t);
    lemma_tag_id_named(s1, j);
    if !s.has_tag_name(t) {
        lemma_add_tag_wf(s, t);
    }
    if !s_mid.has_tagging(post_id, g) {
        lemma_tag_id_named(s_mid, j);
        assert(s1.taggings.last() == (post_id, g));
        assert(s1.taggings.contains((post_id, g)));
    }
    assert(s1.has_tagging(post_id, s1.tag_id_named(t)));
}

/// Taking from a post a tag it does not carry changes no post's tags.
pub proof fn remove_missing_tag_changes_nothing(s: StoreState, post_id: int, t: Seq<char>)
    requires
        s.wf(),
        !s.tag_names_of(post_id).contains(t),
    ensures
        forall|q: int| #[trigger] s.untag_post(post_id, t).tag_names_of(q) == s.tag_names_of(q),
{
    lemma_untag_post(s, post_id, t);
    assert(s.tag_names_of(post_id).remove(t) =~= s.tag_names_of(post_id));
}

/// A search that requires a nonempty set of tags and excludes none returns
/// exactly the posts whose tags include all of them.
pub proof fn search_requires_all_of(s: StoreState, required: Set<Seq<char>>)
    requires
        required != Set::<Seq<char>>::empty(),
    ensures
        ({
            let found = s.posts.filter(matching(s, required, Set::empty()));
            &&& forall|k: int|
                0 <= k < found.len() ==> required.subset_of(
                    s.tag_names_of(#[trigger] found[k].id),
                )
            &&& forall|i: int|
                0 <= i < s.posts.len() && required.subset_of(s.tag_names_of(s.posts[i].id))
                    ==> #[trigger] found.contains(s.posts[i])
        }),
{
    let pred = matching(s, required, Set::empty());
    lemma_filter_members(s.posts, pred);
    assert forall|i: int|
        0 <= i < s.posts.len() && required.subset_of(s.tag_names_of(s.posts[i].id)) implies #[trigger]
        s.posts.filter(pred).contains(s.posts[i]) by {
        assert(Set::<Seq<char>>::empty().disjoint(s.tag_names_of(s.posts[i].id)));
        assert(pred(s.posts[i]));
    }
}

/// No post that a search returns carries an excluded tag, whatever else it
/// carries.
pub proof fn search_never_returns_excluded(
    s: StoreState,
    required: Set<Seq<char>>,
    excluded: Set<Seq<char>>,
)
    ensures
        ({
            let found = s.posts.filter(matching(s, required, excluded));
            forall|k: int, x: Seq<char>|
                0 <= k < found.len() && excluded.contains(x) ==> !#[trigger] s.tag_names_of(
                    found[k].id,
                ).contains(x)
        }),
{
    lemma_filter_members(s.posts, matching(s, required, excluded));
}

/// A search that requires no tag returns nothing, not every post.
pub proof fn search_without_requirement_is_empty(s: StoreState, excluded: Set<Seq<char>>)
    ensures
        s.posts.filter(matching(s, Set::empty(), excluded)).len() == 0,
{
    let pred = matching(s, Set::empty(), excluded);
    lemma_filter_members(s.posts, pred);
    let found = s.posts.filter(pred);
    if found.len() > 0 {
        assert(pred(found[0]));
    }
}

/// After a post is deleted no lookup finds it, it carries no tag, every other
/// post keeps its tags, and every tag remains, so removing one of its former
/// tags elsewhere still works.
pub proof fn delete_post_forgets_it(s: StoreState, post_id: int)
    requires
        s.wf(),
    ensures
        ({
            let t = s.drop_post(post_id);
            &&& !t.has_post(post_id)
            &&& t.tag_names_of(post_id) == Set::<Seq<char>>::empty()
            &&& t.tags == s.tags
            &&& forall|name: Seq<char>| #[trigger] t.has_tag_name(name) == s.has_tag_name(name)
            &&& forall|q: int| q != post_id ==> #[trigger] t.tag_names_of(q) == s.tag_names_of(q)
        }),
{
    let t = s.drop_post(post_id);
    lemma_filter_members(s.posts, crate::db::keeps_post(post_id));
    lemma_filter_members(s.taggings, keeps_pair(Some(post_id), None));
    assert forall|i: int| 0 <= i < t.posts.len() implies #[trigger] t.posts[i].id != post_id by {
        assert(crate::db::keeps_post(post_id)(t.posts[i]));
    }
    assert forall|n: Seq<char>| !#[trigger] t.tag_names_of(post_id).contains(n) by {
        if t.tag_names_of(post_id).contains(n) {
            let j = choose|j: int|
                0 <= j < t.tags.len() && #[trigger] t.tags[j].name == n && t.taggings.contains(
                    (post_id, t.tags[j].id),
                );
            assert(keeps_pair(Some(post_id), None)((post_id, t.tags[j].id)));
        }
    }
    assert(t.tag_names_of(post_id) =~= Set::<Seq<char>>::empty());
    assert forall|q: int| q != post_id implies #[trigger] t.tag_names_of(q) == s.tag_names_of(q) by {
        assert forall|n: Seq<char>| #[trigger] t.tag_names_of(q).contains(n) <==> s.tag_names_of(
            q,
        ).contains(n) by {
            if s.tag_names_of(q).contains(n) {
                let j = choose|j: int|
                    0 <= j < s.tags.len() && #[trigger] s.tags[j].name == n && s.taggings.contains(
                        (q, s.tags[j].id),
                    );
                assert(keeps_pair(Some(post_id), None)((q, s.tags[j].id)));
            }
        }
        assert(t.tag_names_of(q) =~= s.tag_names_of(q));
    }
}

} // verus!
