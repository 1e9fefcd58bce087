use vstd::prelude::*;
use crate::post::{opt_view, Post, PostRecord};
use crate::seqs::{lemma_filter_members, lemma_filter_pairwise, pairwise};
use crate::text::{all_in, insert_sorted, none_in, sorted_unique, str_equal, views};

verus! {

/// What a store operation can fail with.
#[derive(Debug, Clone, Copy, PartialEq, Eq, Structural)]
pub enum StoreError {
    /// No post or tag answers the lookup.
    NotFound,
    /// The store itself refused: ids are exhausted, or a transaction call came
    /// out of turn.
    StorageFailure,
}

/// A tag as the store records it.
pub struct TagRecord {
    pub id: int,
    pub name: Seq<char>,
}

/// The store's three relations and its id counters, as values.
pub struct StoreState {
    pub posts: Seq<PostRecord>,
    pub tags: Seq<TagRecord>,
    /// (post id, tag id) pairs.
    pub taggings: Seq<(int, int)>,
    pub next_post: int,
    pub next_tag: int,
}

pub open spec fn post_before(a: PostRecord, b: PostRecord) -> bool {
    a.id < b.id && a.hash != b.hash
}

pub open spec fn tag_before(a: TagRecord, b: TagRecord) -> bool {
    a.id < b.id && a.name != b.name
}

pub open spec fn distinct_pairs(a: (int, int), b: (int, int)) -> bool {
    a != b
}

impl StoreState {
    pub open spec fn has_post(self, id: int) -> bool {
        exists|i: int| 0 <= i < self.posts.len() && #[trigger] self.posts[i].id == id
    }

    pub open spec fn has_hash(self, hash: Seq<u8>) -> bool {
        exists|i: int| 0 <= i < self.posts.len() && #[trigger] self.posts[i].hash == hash
    }

    pub open spec fn has_tag_id(self, id: int) -> bool {
        exists|j: int| 0 <= j < self.tags.len() && #[trigger] self.tags[j].id == id
    }

    pub open spec fn has_tag_name(self, name: Seq<char>) -> bool {
        exists|j: int| 0 <= j < self.tags.len() && #[trigger] self.tags[j].name == name
    }

    pub open spec fn has_tagging(self, post_id: int, tag_id: int) -> bool {
        self.taggings.contains((post_id, tag_id))
    }

    /// Posts ascend by id and never share a digest; tags ascend by id and never
    /// share a name; no tagging is stored twice, and each links a stored post to
    /// a stored tag; every id is below its counter, which has not run out.
    pub open spec fn wf(self) -> bool {
        &&& 1 <= self.next_post <= i64::MAX
        &&& 1 <= self.next_tag <= i64::MAX
        &&& forall|i: int|
            0 <= i < self.posts.len() ==> 1 <= #[trigger] self.posts[i].id < self.next_post
        &&& forall|j: int| 0 <= j < self.tags.len() ==> 1 <= #[trigger] self.tags[j].id < self.next_tag
        &&& forall|i: int, j: int|
            0 <= i < j < self.posts.len() ==> #[trigger] post_before(self.posts[i], self.posts[j])
        &&& forall|i: int, j: int|
            0 <= i < j < self.tags.len() ==> #[trigger] tag_before(self.tags[i], self.tags[j])
        &&& forall|i: int, j: int|
            0 <= i < j < self.taggings.len() ==> #[trigger] distinct_pairs(
                self.taggings[i],
                self.taggings[j],
            )
        &&& forall|k: int|
            0 <= k < self.taggings.len() ==> self.has_post(#[trigger] self.taggings[k].0)
                && self.has_tag_id(self.taggings[k].1)
    }

    /// The names of the tags that the first `k` taggings give to the post.
    pub open spec fn names_upto(self, post_id: int, k: int) -> Set<Seq<char>> {
        Set::new(
            |n: Seq<char>|
                exists|kk: int, j: int|
                    0 <= kk < k && 0 <= j < self.tags.len() && #[trigger] self.taggings[kk].0
                        == post_id && #[trigger] self.tags[j].id == self.taggings[kk].1
                        && self.tags[j].name == n,
        )
    }

    /// The names of the tags that the post carries.
    pub open spec fn tag_names_of(self, post_id: int) -> Set<Seq<char>> {
        Set::new(
            |n: Seq<char>|
                exists|j: int|
                    0 <= j < self.tags.len() && #[trigger] self.tags[j].name == n
                        && self.taggings.contains((post_id, self.tags[j].id)),
        )
    }

    /// The id of the tag with this name (meaningful when there is one).
    pub open spec fn tag_id_named(self, name: Seq<char>) -> int {
        self.tags[choose|j: int| 0 <= j < self.tags.len() && #[trigger] self.tags[j].name == name].id
    }

    /// The index of the post with this digest (meaningful when there is one).
    pub open spec fn hash_index(self, hash: Seq<u8>) -> int {
        choose|i: int| 0 <= i < self.posts.len() && #[trigger] self.posts[i].hash == hash
    }

    /// The id that ingesting content with this digest ends with: the stored
    /// post's, or the next one.
    pub open spec fn ingest_id(self, hash: Seq<u8>) -> int {
        if self.has_hash(hash) {
            self.posts[self.hash_index(hash)].id
        } else {
            self.next_post
        }
    }

    /// The state after ingesting content with this digest: unchanged when the
    /// digest is stored, else with the new post.
    pub open spec fn ingest(self, hash: Seq<u8>, extension: Option<Seq<char>>, name: Seq<char>) -> StoreState {
        if self.has_hash(hash) {
            self
        } else {
            self.add_post(PostRecord { id: self.next_post, hash, extension, name })
        }
    }

    /// The state after giving the post the named tag, made first if needed.
    pub open spec fn tag_post(self, post_id: int, name: Seq<char>) -> StoreState {
        let s1 = if self.has_tag_name(name) {
            self
        } else {
            self.add_tag(name)
        };
        let g = s1.tag_id_named(name);
        if s1.has_tagging(post_id, g) {
            s1
        } else {
            s1.add_tagging(post_id, g)
        }
    }

    /// The state after taking the named tag from the post.
    pub open spec fn untag_post(self, post_id: int, name: Seq<char>) -> StoreState {
        if self.has_tag_name(name) {
            self.drop_tagging(post_id, self.tag_id_named(name))
        } else {
            self
        }
    }

    /// Search: the post carries every required tag and no excluded one, and
    /// something is required (an empty requirement matches nothing).
    pub open spec fn matches(
        self,
        post_id: int,
        required: Set<Seq<char>>,
        excluded: Set<Seq<char>>,
    ) -> bool {
        &&& required != Set::<Seq<char>>::empty()
        &&& required.subset_of(self.tag_names_of(post_id))
        &&& excluded.disjoint(self.tag_names_of(post_id))
    }
}

impl StoreState {
    /// The state with the id counters raised to at least these values.
    pub open spec fn reserve(self, next_post: int, next_tag: int) -> StoreState {
        StoreState {
            posts: self.posts,
            tags: self.tags,
            taggings: self.taggings,
            next_post: if next_post > self.next_post {
                next_post
            } else {
                self.next_post
            },
            next_tag: if next_tag > self.next_tag {
                next_tag
            } else {
                self.next_tag
            },
        }
    }

    /// The state with one more post row, the counter moved past its id.
    pub open spec fn add_post(self, rec: PostRecord) -> StoreState {
        StoreState {
            posts: self.posts.push(rec),
            tags: self.tags,
            taggings: self.taggings,
            next_post: rec.id + 1,
            next_tag: self.next_tag,
        }
    }

    /// The state with a new tag of this name under the next tag id.
    pub open spec fn add_tag(self, name: Seq<char>) -> StoreState {
        StoreState {
            posts: self.posts,
            tags: self.tags.push(TagRecord { id: self.next_tag, name }),
            taggings: self.taggings,
            next_post: self.next_post,
            next_tag: self.next_tag + 1,
        }
    }

    pub open spec fn add_tagging(self, post_id: int, tag_id: int) -> StoreState {
        StoreState {
            posts: self.posts,
            tags: self.tags,
            taggings: self.taggings.push((post_id, tag_id)),
            next_post: self.next_post,
            next_tag: self.next_tag,
        }
    }

    /// The state without the post and without any tagging of it.
    pub open spec fn drop_post(self, post_id: int) -> StoreState {
        StoreState {
            posts: self.posts.filter(keeps_post(post_id)),
            tags: self.tags,
            taggings: self.taggings.filter(keeps_pair(Some(post_id), None)),
            next_post: self.next_post,
            next_tag: self.next_tag,
        }
    }

    /// The state without the tag and without any tagging that uses it.
    pub open spec fn drop_tag(self, tag_id: int) -> StoreState {
        StoreState {
            posts: self.posts,
            tags: self.tags.filter(keeps_tag(tag_id)),
            taggings: self.taggings.filter(keeps_pair(None, Some(tag_id))),
            next_post: self.next_post,
            next_tag: self.next_tag,
        }
    }

    pub open spec fn drop_tagging(self, post_id: int, tag_id: int) -> StoreState {
        StoreState {
            posts: self.posts,
            tags: self.tags,
            taggings: self.taggings.filter(keeps_pair(Some(post_id), Some(tag_id))),
            next_post: self.next_post,
            next_tag: self.next_tag,
        }
    }
}

pub open spec fn keeps_post(post_id: int) -> spec_fn(PostRecord) -> bool {
    |r: PostRecord| r.id != post_id
}

pub open spec fn keeps_tag(tag_id: int) -> spec_fn(TagRecord) -> bool {
    |t: TagRecord| t.id != tag_id
}

/// Whether a (post id, tag id) pair is one of those selected: its post is the
/// given one, if one is given, and its tag likewise.
pub open spec fn pair_selected(x: (int, int), post_id: Option<int>, tag_id: Option<int>) -> bool {
    &&& (post_id matches Some(p) ==> x.0 == p)
    &&& (tag_id matches Some(t) ==> x.1 == t)
}

pub open spec fn keeps_pair(post_id: Option<int>, tag_id: Option<int>) -> spec_fn((int, int)) -> bool {
    |x: (int, int)| !pair_selected(x, post_id, tag_id)
}

/// The records of a list of posts.
pub open spec fn records_of(v: Seq<Post>) -> Seq<PostRecord> {
    v.map_values(|p: Post| p.record())
}

/// The posts that a search for these tag sets keeps.
pub open spec fn matching(s: StoreState, required: Set<Seq<char>>, excluded: Set<Seq<char>>) -> spec_fn(
    PostRecord,
) -> bool {
    |r: PostRecord| s.matches(r.id, required, excluded)
}

/// Each post is a faithful snapshot: sorted tags, the very tags the store
/// gives its id.
pub open spec fn snapshots_of(s: StoreState, v: Seq<Post>) -> bool {
    forall|k: int|
        0 <= k < v.len() ==> (#[trigger] v[k]).wf() && v[k].tag_set() == s.tag_names_of(
            v[k].id as int,
        )
}

/// The record of a post that is new to the store, under the next id.
pub open spec fn fresh_record(s: StoreState, post: &Post) -> PostRecord {
    PostRecord {
        id: s.next_post,
        hash: post.blake3_bytes@,
        extension: opt_view(post.extension),
        name: post.original_name@,
    }
}

struct PostRow {
    id: i64,
    blake3_bytes: [u8; 32],
    extension: Option<String>,
    original_name: String,
}

struct TagRow {
    id: i64,
    name: String,
}

#[derive(Clone, Copy)]
struct Tagging {
    post_id: i64,
    tag_id: i64,
}

impl PostRow {
    spec fn record(&self) -> PostRecord {
        PostRecord {
            id: self.id as int,
            hash: self.blake3_bytes@,
            extension: opt_view(self.extension),
            name: self.original_name@,
        }
    }

    fn duplicate(&self) -> (r: PostRow)
        ensures
            r.record() == self.record(),
    {
        PostRow {
            id: self.id,
            blake3_bytes: self.blake3_bytes,
            extension: clone_opt(&self.extension),
            original_name: self.original_name.clone(),
        }
    }
}

impl TagRow {
    spec fn record(&self) -> TagRecord {
        TagRecord { id: self.id as int, name: self.name@ }
    }

    fn duplicate(&self) -> (r: TagRow)
        ensures
            r.record() == self.record(),
    {
        TagRow { id: self.id, name: self.name.clone() }
    }
}

pub fn clone_opt(o: &Option<String>) -> (r: Option<String>)
    ensures
        opt_view(r) == opt_view(*o),
{
    match o {
        Some(s) => Some(s.clone()),
        None => None,
    }
}

spec fn post_records(v: Seq<PostRow>) -> Seq<PostRecord> {
    v.map_values(|r: PostRow| r.record())
}

spec fn tag_records(v: Seq<TagRow>) -> Seq<TagRecord> {
    v.map_values(|r: TagRow| r.record())
}

spec fn pair_records(v: Seq<Tagging>) -> Seq<(int, int)> {
    v.map_values(|t: Tagging| (t.post_id as int, t.tag_id as int))
}

struct Tables {
    posts: Vec<PostRow>,
    tags: Vec<TagRow>,
    taggings: Vec<Tagging>,
    next_post_id: i64,
    next_tag_id: i64,
}

impl Tables {
    fn duplicate(&self) -> (r: Tables)
        ensures
            r.state() == self.state(),
    {
        let mut posts: Vec<PostRow> = Vec::new();
        let mut i: usize = 0;
        while i < self.posts.len()
            invariant
                i <= self.posts@.len(),
                post_records(posts@) == post_records(self.posts@.take(i as int)),
            decreases self.posts.len() - i,
        {
            let ghost o = posts@;
            posts.push(self.posts[i].duplicate());
            assert(post_records(posts@) =~= post_records(o).push(self.posts@[i as int].record()));
            assert(post_records(self.posts@.take(i + 1)) =~= post_records(self.posts@.take(i as int)).push(
                self.posts@[i as int].record(),
            ));
            i = i + 1;
        }
        let mut tags: Vec<TagRow> = Vec::new();
        let mut j: usize = 0;
        while j < self.tags.len()
            invariant
                j <= self.tags@.len(),
                tag_records(tags@) == tag_records(self.tags@.take(j as int)),
            decreases self.tags.len() - j,
        {
            let ghost o = tags@;
            tags.push(self.tags[j].duplicate());
            assert(tag_records(tags@) =~= tag_records(o).push(self.tags@[j as int].record()));
            assert(tag_records(self.tags@.take(j + 1)) =~= tag_records(self.tags@.take(j as int)).push(
                self.tags@[j as int].record(),
            ));
            j = j + 1;
        }
        let mut taggings: Vec<Tagging> = Vec::new();
        let mut k: usize = 0;
        while k < self.taggings.len()
            invariant
                k <= self.taggings@.len(),
                taggings@ == self.taggings@.take(k as int),
            decreases self.taggings.len() - k,
        {
            taggings.push(self.taggings[k]);
            assert(taggings@ =~= self.taggings@.take(k + 1));
            k = k + 1;
        }
        assert(self.posts@.take(i as int) =~= self.posts@);
        assert(self.tags@.take(j as int) =~= self.tags@);
        assert(self.taggings@.take(k as int) =~= self.taggings@);
        Tables {
            posts,
            tags,
            taggings,
            next_post_id: self.next_post_id,
            next_tag_id: self.next_tag_id,
        }
    }

    spec fn state(&self) -> StoreState {
        StoreState {
            posts: post_records(self.posts@),
            tags: tag_records(self.tags@),
            taggings: pair_records(self.taggings@),
            next_post: self.next_post_id as int,
            next_tag: self.next_tag_id as int,
        }
    }
}

/// The archive's relational store: posts, tags and the taggings between them,
/// with store-assigned ids that start at 1 and are never reused, and an
/// optional open transaction that can be committed or rolled back.
pub struct Database {
    tables: Tables,
    saved: Option<Tables>,
}

impl View for Database {
    type V = StoreState;

    closed spec fn view(&self) -> StoreState {
        self.tables.state()
    }
}

impl Database {
    /// The state when the open transaction began, if one is open.
    pub closed spec fn snapshot(&self) -> Option<StoreState> {
        match self.saved {
            Some(t) => Some(t.state()),
            None => None,
        }
    }

    pub open spec fn wf(&self) -> bool {
        &&& self@.wf()
        &&& self.snapshot() matches Some(s) ==> s.wf()
    }

    /// An empty store.
    pub fn new() -> (r: Database)
        ensures
            r.wf(),
            r@.posts.len() == 0,
            r@.tags.len() == 0,
            r@.taggings.len() == 0,
            r@.next_post == 1,
            r@.next_tag == 1,
            r.snapshot() is None,
    {
        let r = Database {
            tables: Tables {
                posts: Vec::new(),
                tags: Vec::new(),
                taggings: Vec::new(),
                next_post_id: 1,
                next_tag_id: 1,
            },
            saved: None,
        };
        assert(r@.posts =~= Seq::<PostRecord>::empty());
        assert(r@.tags =~= Seq::<TagRecord>::empty());
        assert(r@.taggings =~= Seq::<(int, int)>::empty());
        r
    }

    /// Opens a transaction: what follows can be undone as one unit by
    /// `rollback`. Only one can be open at a time.
    pub fn begin(&mut self) -> (r: Result<(), StoreError>)
        requires
            old(self).wf(),
        ensures
            final(self).wf(),
            final(self)@ == old(self)@,
            old(self).snapshot() is Some ==> r == Err::<(), StoreError>(StoreError::StorageFailure)
                && final(self).snapshot() == old(self).snapshot(),
            old(self).snapshot() is None ==> r is Ok && final(self).snapshot() == Some(old(self)@),
    {
        if self.saved.is_some() {
            return Err(StoreError::StorageFailure);
        }
        self.saved = Some(self.tables.duplicate());
        Ok(())
    }

    /// Closes the open transaction and keeps what it did.
    pub fn commit(&mut self) -> (r: Result<(), StoreError>)
        requires
            old(self).wf(),
        ensures
            final(self).wf(),
            final(self)@ == old(self)@,
            final(self).snapshot() is None,
            old(self).snapshot() is None ==> r == Err::<(), StoreError>(StoreError::StorageFailure),
            old(self).snapshot() is Some ==> r is Ok,
    {
        if self.saved.is_none() {
            return Err(StoreError::StorageFailure);
        }
        self.saved = None;
        Ok(())
    }

    /// Closes the open transaction and undoes what it did: the store is back
    /// where `begin` found it.
    pub fn rollback(&mut self) -> (r: Result<(), StoreError>)
        requires
            old(self).wf(),
        ensures
            final(self).wf(),
            final(self).snapshot() is None,
            old(self).snapshot() is None ==> r == Err::<(), StoreError>(StoreError::StorageFailure)
                && final(self)@ == old(self)@,
            old(self).snapshot() matches Some(s) ==> r is Ok && final(self)@ == s,
    {
        let saved = self.saved.take();
        match saved {
            Some(t) => {
                self.tables = t;
                Ok(())
            },
            None => Err(StoreError::StorageFailure),
        }
    }

    /// Adds the post's row unless its digest is stored already. Returns the
    /// new id, or 0 when a post with that digest exists (nothing is written).
    pub fn insert_post(&mut self, post: &Post) -> (r: Result<i64, StoreError>)
        requires
            old(self).wf(),
        ensures
            final(self).wf(),
            final(self).snapshot() == old(self).snapshot(),
            old(self)@.has_hash(post.blake3_bytes@) ==> r == Ok::<i64, StoreError>(0)
                && final(self)@ == old(self)@,
            !old(self)@.has_hash(post.blake3_bytes@) && old(self)@.next_post == i64::MAX ==> r
                == Err::<i64, StoreError>(StoreError::StorageFailure) && final(self)@ == old(self)@,
            !old(self)@.has_hash(post.blake3_bytes@) && old(self)@.next_post < i64::MAX ==> r
                == Ok::<i64, StoreError>(old(self)@.next_post as i64) && final(self)@ == old(self)@.add_post(fresh_record(old(self)@, post)),
    {
        if self.find_post_by_hash(&post.blake3_bytes).is_some() {
            return Ok(0);
        }
        let id = self.tables.next_post_id;
        if id == i64::MAX {
            return Err(StoreError::StorageFailure);
        }
        let ghost s = self@;
        let row = PostRow {
            id,
            blake3_bytes: post.blake3_bytes,
            extension: clone_opt(&post.extension),
            original_name: post.original_name.clone(),
        };
        self.tables.posts.push(row);
        self.tables.next_post_id = id + 1;
        proof {
            let rec = fresh_record(s, post);
            assert(self@.posts =~= s.posts.push(rec));
            assert(self@ == s.add_post(rec));
            lemma_add_post_wf(s, rec);
        }
        Ok(id)
    }

    /// Adds a tag of this name unless one exists. Returns the new id, or 0 when
    /// the name is taken (nothing is written).
    pub fn insert_tag(&mut self, name: &String) -> (r: Result<i64, StoreError>)
        requires
            old(self).wf(),
        ensures
            final(self).wf(),
            final(self).snapshot() == old(self).snapshot(),
            old(self)@.has_tag_name(name@) ==> r == Ok::<i64, StoreError>(0) && final(self)@
                == old(self)@,
            !old(self)@.has_tag_name(name@) && old(self)@.next_tag == i64::MAX ==> r == Err::<
                i64,
                StoreError,
            >(StoreError::StorageFailure) && final(self)@ == old(self)@,
            !old(self)@.has_tag_name(name@) && old(self)@.next_tag < i64::MAX ==> r == Ok::<
                i64,
                StoreError,
            >(old(self)@.next_tag as i64) && final(self)@ == old(self)@.add_tag(name@),
    {
        if self.find_tag_by_name(name.as_str()).is_some() {
            return Ok(0);
        }
        let id = self.tables.next_tag_id;
        if id == i64::MAX {
            return Err(StoreError::StorageFailure);
        }
        let ghost s = self@;
        self.tables.tags.push(TagRow { id, name: name.clone() });
        self.tables.next_tag_id = id + 1;
        proof {
            assert(self@.tags =~= s.tags.push(TagRecord { id: s.next_tag, name: name@ }));
            assert(self@ == s.add_tag(name@));
            lemma_add_tag_wf(s, name@);
        }
        Ok(id)
    }

    /// The id of the tag with this name.
    pub fn get_tag_id(&self, name: &String) -> (r: Result<i64, StoreError>)
        requires
            self.wf(),
        ensures
            !self@.has_tag_name(name@) ==> r == Err::<i64, StoreError>(StoreError::NotFound),
            self@.has_tag_name(name@) ==> (r matches Ok(id) && exists|j: int|
                0 <= j < self@.tags.len() && #[trigger] self@.tags[j].id == id && self@.tags[j].name
                    == name@),
    {
        match self.find_tag_by_name(name.as_str()) {
            Some(j) => {
                assert(self@.tags[j as int].id == self.tables.tags[j as int].id);
                Ok(self.tables.tags[j].id)
            },
            None => Err(StoreError::NotFound),
        }
    }

    /// The id of the tag with this name, made first if there is none.
    pub fn get_or_create_tag(&mut self, name: &String) -> (r: Result<i64, StoreError>)
        requires
            old(self).wf(),
        ensures
            final(self).wf(),
            final(self).snapshot() == old(self).snapshot(),
            old(self)@.has_tag_name(name@) ==> final(self)@ == old(self)@,
            old(self)@.has_tag_name(name@) ==> (r matches Ok(id) && exists|j: int|
                0 <= j < old(self)@.tags.len() && #[trigger] old(self)@.tags[j].id == id && old(self)@.tags[j].name == name@),
            !old(self)@.has_tag_name(name@) && old(self)@.next_tag == i64::MAX ==> r == Err::<
                i64,
                StoreError,
            >(StoreError::StorageFailure) && final(self)@ == old(self)@,
            !old(self)@.has_tag_name(name@) && old(self)@.next_tag < i64::MAX ==> r == Ok::<
                i64,
                StoreError,
            >(old(self)@.next_tag as i64) && final(self)@ == old(self)@.add_tag(name@),
    {
        match self.get_tag_id(name) {
            Ok(id) => Ok(id),
            Err(_) => self.insert_tag(name),
        }
    }

    /// Links the post to the tag; linking them again changes nothing. Both
    /// must be stored. Returns whether a link was added.
    pub fn insert_tagging(&mut self, post_id: i64, tag_id: i64) -> (r: Result<bool, StoreError>)
        requires
            old(self).wf(),
        ensures
            final(self).wf(),
            final(self).snapshot() == old(self).snapshot(),
            !(old(self)@.has_post(post_id as int) && old(self)@.has_tag_id(tag_id as int)) ==> r
                == Err::<bool, StoreError>(StoreError::NotFound) && final(self)@ == old(self)@,
            old(self)@.has_post(post_id as int) && old(self)@.has_tag_id(tag_id as int) ==> r
                == Ok::<bool, StoreError>(!old(self)@.has_tagging(post_id as int, tag_id as int))
                && final(self)@ == if old(self)@.has_tagging(post_id as int, tag_id as int) {
                old(self)@
            } else {
                old(self)@.add_tagging(post_id as int, tag_id as int)
            },
    {
        if self.find_post_by_id(post_id).is_none() || self.find_tag_by_id(tag_id).is_none() {
            return Err(StoreError::NotFound);
        }
        if self.find_tagging(post_id, tag_id) {
            return Ok(false);
        }
        let ghost s = self@;
        self.tables.taggings.push(Tagging { post_id, tag_id });
        proof {
            assert(self@.taggings =~= s.taggings.push((post_id as int, tag_id as int)));
            assert(self@ == s.add_tagging(post_id as int, tag_id as int));
            lemma_add_tagging_wf(s, post_id as int, tag_id as int);
        }
        Ok(true)
    }

    /// Deletes the post's row and every tagging of it.
    pub fn remove_post(&mut self, post_id: i64) -> (r: Result<(), StoreError>)
        requires
            old(self).wf(),
        ensures
            final(self).wf(),
            final(self).snapshot() == old(self).snapshot(),
            r is Ok,
            final(self)@ == old(self)@.drop_post(post_id as int),
    {
        let ghost s = self@;
        let posts = filter_posts(&self.tables.posts, post_id);
        let taggings = filter_taggings(&self.tables.taggings, Some(post_id), None);
        self.tables.posts = posts;
        self.tables.taggings = taggings;
        proof {
            lemma_drop_post_wf(s, post_id as int);
        }
        Ok(())
    }

    /// Deletes the tag of this name and every tagging that uses it; returns
    /// its id.
    pub fn remove_tag(&mut self, tag_name: &String) -> (r: Result<i64, StoreError>)
        requires
            old(self).wf(),
        ensures
            final(self).wf(),
            final(self).snapshot() == old(self).snapshot(),
            !old(self)@.has_tag_name(tag_name@) ==> r == Err::<i64, StoreError>(
                StoreError::NotFound,
            ) && final(self)@ == old(self)@,
            old(self)@.has_tag_name(tag_name@) ==> (r matches Ok(id) && (exists|j: int|
                0 <= j < old(self)@.tags.len() && #[trigger] old(self)@.tags[j].id == id && old(self)@.tags[j].name == tag_name@) && final(self)@ == old(self)@.drop_tag(id as int)),
    {
        let tag_id = self.get_tag_id(tag_name)?;
        let ghost s = self@;
        let tags = filter_tags(&self.tables.tags, tag_id);
        let taggings = filter_taggings(&self.tables.taggings, None, Some(tag_id));
        self.tables.tags = tags;
        self.tables.taggings = taggings;
        proof {
            lemma_drop_tag_wf(s, tag_id as int);
        }
        Ok(tag_id)
    }

    /// Unlinks the post from the tag; no error if they were not linked.
    pub fn remove_tagging(&mut self, post_id: i64, tag_id: i64) -> (r: Result<(), StoreError>)
        requires
            old(self).wf(),
        ensures
            final(self).wf(),
            final(self).snapshot() == old(self).snapshot(),
            r is Ok,
            final(self)@ == old(self)@.drop_tagging(post_id as int, tag_id as int),
    {
        let ghost s = self@;
        let taggings = filter_taggings(&self.tables.taggings, Some(post_id), Some(tag_id));
        self.tables.taggings = taggings;
        proof {
            lemma_drop_tagging_wf(s, post_id as int, tag_id as int);
        }
        Ok(())
    }

    /// The names of the tags that the post carries, sorted.
    fn collect_tags(&self, post_id: i64) -> (r: Vec<String>)
        requires
            self@.wf(),
        ensures
            sorted_unique(views(r@)),
            views(r@).to_set() == self@.tag_names_of(post_id as int),
    {
        let ghost s = self@;
        let ghost pid = post_id as int;
        let mut out: Vec<String> = Vec::new();
        let mut k: usize = 0;
        assert(views(out@).to_set() =~= s.names_upto(pid, 0));
        proof {
            lemma_names_upto_all(s, pid);
        }
        while k < self.tables.taggings.len()
            invariant
                s == self@,
                s.wf(),
                pid == post_id as int,
                k <= s.taggings.len(),
                s.taggings.len() == self.tables.taggings@.len(),
                sorted_unique(views(out@)),
                views(out@).to_set() == s.names_upto(pid, k as int),
            decreases self.tables.taggings.len() - k,
        {
            let t = self.tables.taggings[k];
            assert(s.taggings[k as int] == (t.post_id as int, t.tag_id as int));
            if t.post_id == post_id {
                assert(s.has_post(s.taggings[k as int].0));
                assert(s.has_tag_id(s.taggings[k as int].1));
                match self.find_tag_by_id(t.tag_id) {
                    Some(j) => {
                        let ghost name = s.tags[j as int].name;
                        insert_sorted(&mut out, self.tables.tags[j].name.as_str());
                        proof {
                            assert forall|n: Seq<char>| #[trigger]
                                s.names_upto(pid, k + 1).contains(n) <==> s.names_upto(
                                    pid,
                                    k as int,
                                ).contains(n) || n == name by {
                                if s.names_upto(pid, k + 1).contains(n) {
                                    let (kk, jj) = choose|kk: int, jj: int|
                                        0 <= kk < k + 1 && 0 <= jj < s.tags.len()
                                            && #[trigger] s.taggings[kk].0 == pid
                                            && #[trigger] s.tags[jj].id == s.taggings[kk].1
                                            && s.tags[jj].name == n;
                                    if kk == k {
                                        if jj < j {
                                            assert(tag_before(s.tags[jj], s.tags[j as int]));
                                        } else if jj > j {
                                            assert(tag_before(s.tags[j as int], s.tags[jj]));
                                        }
                                    }
                                }
                                if n == name {
                                    assert(s.taggings[k as int].0 == pid);
                                    assert(s.tags[j as int].id == s.taggings[k as int].1);
                                }
                            }
                            assert(s.names_upto(pid, k + 1) =~= s.names_upto(pid, k as int).insert(
                                name,
                            ));
                        }
                    },
                    None => {},
                }
            } else {
                assert(s.names_upto(pid, k + 1) =~= s.names_upto(pid, k as int));
            }
            k = k + 1;
        }
        out
    }

    /// The snapshot of the post in row `i`.
    fn post_at(&self, i: usize) -> (r: Post)
        requires
            self@.wf(),
            i < self@.posts.len(),
        ensures
            r.record() == self@.posts[i as int],
            r.wf(),
            r.tag_set() == self@.tag_names_of(self@.posts[i as int].id),
    {
        let row = &self.tables.posts[i];
        Post {
            id: row.id,
            blake3_bytes: row.blake3_bytes,
            extension: clone_opt(&row.extension),
            original_name: row.original_name.clone(),
            tags: self.collect_tags(row.id),
        }
    }

    /// The names of the tags that the post carries, in ascending order.
    pub fn get_post_tags(&self, post_id: i64) -> (r: Result<Vec<String>, StoreError>)
        requires
            self.wf(),
        ensures
            r matches Ok(v) && sorted_unique(views(v@)) && views(v@).to_set() == self@.tag_names_of(
                post_id as int,
            ),
    {
        Ok(self.collect_tags(post_id))
    }

    /// The post with this id, with its tags.
    pub fn get_post_id(&self, post_id: i64) -> (r: Result<Post, StoreError>)
        requires
            self.wf(),
        ensures
            !self@.has_post(post_id as int) ==> r == Err::<Post, StoreError>(StoreError::NotFound),
            self@.has_post(post_id as int) ==> (r matches Ok(p) && p.wf() && p.tag_set()
                == self@.tag_names_of(post_id as int) && exists|i: int|
                0 <= i < self@.posts.len() && #[trigger] self@.posts[i] == p.record()),
    {
        match self.find_post_by_id(post_id) {
            Some(i) => Ok(self.post_at(i)),
            None => Err(StoreError::NotFound),
        }
    }

    /// The post with this content digest, with its tags.
    pub fn get_post_blake3(&self, blake3_bytes: [u8; 32]) -> (r: Result<Post, StoreError>)
        requires
            self.wf(),
        ensures
            !self@.has_hash(blake3_bytes@) ==> r == Err::<Post, StoreError>(StoreError::NotFound),
            self@.has_hash(blake3_bytes@) ==> (r matches Ok(p) && p.wf() && p.blake3_bytes@
                == blake3_bytes@ && p.tag_set() == self@.tag_names_of(p.id as int) && exists|i: int|
                0 <= i < self@.posts.len() && #[trigger] self@.posts[i] == p.record()),
    {
        match self.find_post_by_hash(&blake3_bytes) {
            Some(i) => Ok(self.post_at(i)),
            None => Err(StoreError::NotFound),
        }
    }

    /// Every post, in the order of their ids, with their tags.
    pub fn all(&self) -> (r: Result<Vec<Post>, StoreError>)
        requires
            self.wf(),
        ensures
            r matches Ok(v) && records_of(v@) == self@.posts && snapshots_of(self@, v@),
    {
        let mut out: Vec<Post> = Vec::new();
        let mut i: usize = 0;
        while i < self.tables.posts.len()
            invariant
                self@.wf(),
                i <= self@.posts.len(),
                self@.posts.len() == self.tables.posts@.len(),
                records_of(out@) == self@.posts.take(i as int),
                snapshots_of(self@, out@),
            decreases self.tables.posts.len() - i,
        {
            let p = self.post_at(i);
            let ghost o = out@;
            out.push(p);
            assert(records_of(out@) =~= records_of(o).push(p.record()));
            assert(self@.posts.take(i + 1) =~= self@.posts.take(i as int).push(self@.posts[i as int]));
            assert(out@[i as int] == p);
            i = i + 1;
        }
        assert(self@.posts.take(i as int) =~= self@.posts);
        Ok(out)
    }

    /// The posts that carry every tag of `with_tags` and none of `without_tags`,
    /// in the order of their ids. Repeated names count once; when `with_tags`
    /// is empty nothing matches.
    pub fn search(&self, with_tags: Vec<String>, without_tags: Vec<String>) -> (r: Result<
        Vec<Post>,
        StoreError,
    >)
        requires
            self.wf(),
        ensures
            r matches Ok(v) && records_of(v@) == self@.posts.filter(
                matching(self@, views(with_tags@).to_set(), views(without_tags@).to_set()),
            ) && snapshots_of(self@, v@),
    {
        let ghost req = views(with_tags@).to_set();
        let ghost exc = views(without_tags@).to_set();
        let ghost pred = matching(self@, req, exc);
        let mut out: Vec<Post> = Vec::new();
        let mut i: usize = 0;
        proof {
            reveal(Seq::filter);
            assert(self@.posts.take(0).filter(pred) =~= Seq::<PostRecord>::empty());
        }
        assert(records_of(out@) =~= Seq::<PostRecord>::empty());
        if with_tags.len() == 0 {
            assert(req =~= Set::<Seq<char>>::empty());
        } else {
            assert(req.contains(views(with_tags@)[0]));
        }
        while i < self.tables.posts.len()
            invariant
                self@.wf(),
                pred == matching(self@, req, exc),
                req == views(with_tags@).to_set(),
                exc == views(without_tags@).to_set(),
                with_tags.len() == 0 <==> req == Set::<Seq<char>>::empty(),
                i <= self@.posts.len(),
                self@.posts.len() == self.tables.posts@.len(),
                records_of(out@) == self@.posts.take(i as int).filter(pred),
                snapshots_of(self@, out@),
            decreases self.tables.posts.len() - i,
        {
            proof {
                reveal(Seq::filter);
            }
            let id = self.tables.posts[i].id;
            let tags = self.collect_tags(id);
            let keep = with_tags.len() > 0 && all_in(&with_tags, &tags) && none_in(&without_tags, &tags);
            let ghost next = self@.posts.take(i + 1);
            assert(next.drop_last() =~= self@.posts.take(i as int));
            assert(next.last() == self@.posts[i as int]);
            assert(keep == pred(self@.posts[i as int]));
            if keep {
                let row = &self.tables.posts[i];
                let p = Post {
                    id: row.id,
                    blake3_bytes: row.blake3_bytes,
                    extension: clone_opt(&row.extension),
                    original_name: row.original_name.clone(),
                    tags,
                };
                let ghost o = out@;
                out.push(p);
                assert(records_of(out@) =~= records_of(o).push(p.record()));
                assert(out@[out@.len() - 1] == p);
            }
            i = i + 1;
        }
        assert(self@.posts.take(i as int) =~= self@.posts);
        Ok(out)
    }

    /// Raises the id counters to at least these values, so that ids used
    /// before (by rows since deleted) are never handed out again.
    pub fn reserve_ids(&mut self, next_post: i64, next_tag: i64)
        requires
            old(self).wf(),
        ensures
            final(self).wf(),
            final(self).snapshot() == old(self).snapshot(),
            final(self)@ == old(self)@.reserve(next_post as int, next_tag as int),
    {
        proof {
            lemma_reserve_wf(self@, next_post as int, next_tag as int);
        }
        if next_post > self.tables.next_post_id {
            self.tables.next_post_id = next_post;
        }
        if next_tag > self.tables.next_tag_id {
            self.tables.next_tag_id = next_tag;
        }
    }

    /// The id counters: the ids the next post and the next tag will get.
    pub fn next_ids(&self) -> (r: (i64, i64))
        ensures
            r.0 as int == self@.next_post,
            r.1 as int == self@.next_tag,
    {
        (self.tables.next_post_id, self.tables.next_tag_id)
    }

    /// Enters a post under the id it was saved with, as when a saved store is
    /// loaded. Saved posts come in ascending order of id.
    pub fn restore_post(&mut self, post: &Post) -> (r: Result<(), StoreError>)
        requires
            old(self).wf(),
        ensures
            final(self).wf(),
            final(self).snapshot() == old(self).snapshot(),
            old(self)@.next_post <= post.id < i64::MAX && !old(self)@.has_hash(post.blake3_bytes@)
                ==> r is Ok && final(self)@ == old(self)@.add_post(post.record()),
            !(old(self)@.next_post <= post.id < i64::MAX && !old(self)@.has_hash(
                post.blake3_bytes@,
            )) ==> r == Err::<(), StoreError>(StoreError::StorageFailure) && final(self)@ == old(
                self,
            )@,
    {
        if post.id < self.tables.next_post_id || post.id == i64::MAX {
            return Err(StoreError::StorageFailure);
        }
        if self.find_post_by_hash(&post.blake3_bytes).is_some() {
            return Err(StoreError::StorageFailure);
        }
        let ghost s = self@;
        self.tables.posts.push(
            PostRow {
                id: post.id,
                blake3_bytes: post.blake3_bytes,
                extension: clone_opt(&post.extension),
                original_name: post.original_name.clone(),
            },
        );
        self.tables.next_post_id = post.id + 1;
        proof {
            assert(self@.posts =~= s.posts.push(post.record()));
            lemma_add_post_wf(s, post.record());
        }
        Ok(())
    }

    /// Enters a tag under the id it was saved with, as when a saved store is
    /// loaded. Saved tags come in ascending order of id.
    pub fn restore_tag(&mut self, tag_id: i64, name: &String) -> (r: Result<(), StoreError>)
        requires
            old(self).wf(),
        ensures
            final(self).wf(),
            final(self).snapshot() == old(self).snapshot(),
            old(self)@.next_tag <= tag_id < i64::MAX && !old(self)@.has_tag_name(name@) ==> r is Ok
                && final(self)@ == old(self)@.reserve(old(self)@.next_post, tag_id as int).add_tag(
                name@,
            ),
            !(old(self)@.next_tag <= tag_id < i64::MAX && !old(self)@.has_tag_name(name@)) ==> r
                == Err::<(), StoreError>(StoreError::StorageFailure) && final(self)@ == old(self)@,
    {
        if tag_id < self.tables.next_tag_id || tag_id == i64::MAX {
            return Err(StoreError::StorageFailure);
        }
        if self.find_tag_by_name(name.as_str()).is_some() {
            return Err(StoreError::StorageFailure);
        }
        proof {
            lemma_reserve_wf(self@, self@.next_post, tag_id as int);
        }
        self.tables.next_tag_id = tag_id;
        let inserted = self.insert_tag(name);
        match inserted {
            Ok(_) => Ok(()),
            Err(e) => Err(e),
        }
    }

    /// Every tag, as (id, name), in the order of their ids.
    pub fn tag_rows(&self) -> (r: Vec<(i64, String)>)
        ensures
            r@.len() == self@.tags.len(),
            forall|j: int|
                0 <= j < r@.len() ==> r@[j].0 as int == self@.tags[j].id && (#[trigger] r@[j]).1@
                    == self@.tags[j].name,
    {
        let mut out: Vec<(i64, String)> = Vec::new();
        let mut j: usize = 0;
        while j < self.tables.tags.len()
            invariant
                j <= self@.tags.len(),
                self@.tags.len() == self.tables.tags@.len(),
                out@.len() == j,
                forall|m: int|
                    0 <= m < j ==> out@[m].0 as int == self@.tags[m].id && (#[trigger] out@[m]).1@
                        == self@.tags[m].name,
            decreases self.tables.tags.len() - j,
        {
            let row = &self.tables.tags[j];
            out.push((row.id, row.name.clone()));
            j = j + 1;
        }
        out
    }

    /// Every tagging, as (post id, tag id), in the order they were made.
    pub fn tagging_rows(&self) -> (r: Vec<(i64, i64)>)
        ensures
            r@.len() == self@.taggings.len(),
            forall|k: int|
                0 <= k < r@.len() ==> ((#[trigger] r@[k]).0 as int, r@[k].1 as int)
                    == self@.taggings[k],
    {
        let mut out: Vec<(i64, i64)> = Vec::new();
        let mut k: usize = 0;
        while k < self.tables.taggings.len()
            invariant
                k <= self@.taggings.len(),
                self@.taggings.len() == self.tables.taggings@.len(),
                out@.len() == k,
                forall|m: int|
                    0 <= m < k ==> ((#[trigger] out@[m]).0 as int, out@[m].1 as int)
                        == self@.taggings[m],
            decreases self.tables.taggings.len() - k,
        {
            let t = self.tables.taggings[k];
            out.push((t.post_id, t.tag_id));
            k = k + 1;
        }
        out
    }

    /// Whether a post with this id is stored.
    pub fn contains_post(&self, post_id: i64) -> (r: bool)
        ensures
            r == self@.has_post(post_id as int),
    {
        self.find_post_by_id(post_id).is_some()
    }

    fn find_tagging(&self, post_id: i64, tag_id: i64) -> (r: bool)
        ensures
            r == self@.has_tagging(post_id as int, tag_id as int),
    {
        let mut k: usize = 0;
        while k < self.tables.taggings.len()
            invariant
                k <= self@.taggings.len(),
                self@.taggings.len() == self.tables.taggings@.len(),
                forall|m: int| 0 <= m < k ==> self@.taggings[m] != (post_id as int, tag_id as int),
            decreases self.tables.taggings.len() - k,
        {
            let t = self.tables.taggings[k];
            if t.post_id == post_id && t.tag_id == tag_id {
                assert(self@.taggings[k as int] == (post_id as int, tag_id as int));
                return true;
            }
            k = k + 1;
        }
        false
    }

    fn find_post_by_id(&self, id: i64) -> (r: Option<usize>)
        ensures
            r matches Some(i) ==> i < self@.posts.len() && self@.posts[i as int].id == id,
            r is None ==> !self@.has_post(id as int),
    {
        let mut i: usize = 0;
        while i < self.tables.posts.len()
            invariant
                i <= self@.posts.len(),
                self@.posts.len() == self.tables.posts@.len(),
                forall|m: int| 0 <= m < i ==> self@.posts[m].id != id,
            decreases self.tables.posts.len() - i,
        {
            if self.tables.posts[i].id == id {
                return Some(i);
            }
            i = i + 1;
        }
        None
    }

    fn find_post_by_hash(&self, hash: &[u8; 32]) -> (r: Option<usize>)
        ensures
            r matches Some(i) ==> i < self@.posts.len() && self@.posts[i as int].hash == hash@,
            r is None ==> !self@.has_hash(hash@),
    {
        let mut i: usize = 0;
        while i < self.tables.posts.len()
            invariant
                i <= self@.posts.len(),
                self@.posts.len() == self.tables.posts@.len(),
                forall|m: int| 0 <= m < i ==> self@.posts[m].hash != hash@,
            decreases self.tables.posts.len() - i,
        {
            if bytes_equal(&self.tables.posts[i].blake3_bytes, hash) {
                return Some(i);
            }
            i = i + 1;
        }
        None
    }

    fn find_tag_by_name(&self, name: &str) -> (r: Option<usize>)
        ensures
            r matches Some(j) ==> j < self@.tags.len() && self@.tags[j as int].name == name@,
            r is None ==> !self@.has_tag_name(name@),
    {
        let mut j: usize = 0;
        while j < self.tables.tags.len()
            invariant
                j <= self@.tags.len(),
                self@.tags.len() == self.tables.tags@.len(),
                forall|m: int| 0 <= m < j ==> self@.tags[m].name != name@,
            decreases self.tables.tags.len() - j,
        {
            if str_equal(self.tables.tags[j].name.as_str(), name) {
                return Some(j);
            }
            j = j + 1;
        }
        None
    }

    fn find_tag_by_id(&self, id: i64) -> (r: Option<usize>)
        ensures
            r matches Some(j) ==> j < self@.tags.len() && self@.tags[j as int].id == id,
            r is None ==> !self@.has_tag_id(id as int),
    {
        let mut j: usize = 0;
        while j < self.tables.tags.len()
            invariant
                j <= self@.tags.len(),
                self@.tags.len() == self.tables.tags@.len(),
                forall|m: int| 0 <= m < j ==> self@.tags[m].id != id,
            decreases self.tables.tags.len() - j,
        {
            if self.tables.tags[j].id == id {
                return Some(j);
            }
            j = j + 1;
        }
        None
    }
}

proof fn lemma_names_upto_all(s: StoreState, post_id: int)
    ensures
        s.names_upto(post_id, s.taggings.len() as int) == s.tag_names_of(post_id),
{
    assert forall|n: Seq<char>| #[trigger]
        s.names_upto(post_id, s.taggings.len() as int).contains(n) <==> s.tag_names_of(
            post_id,
        ).contains(n) by {
        if s.names_upto(post_id, s.taggings.len() as int).contains(n) {
            let (kk, j) = choose|kk: int, j: int|
                0 <= kk < s.taggings.len() && 0 <= j < s.tags.len() && #[trigger] s.taggings[kk].0
                    == post_id && #[trigger] s.tags[j].id == s.taggings[kk].1 && s.tags[j].name == n;
            assert(s.taggings[kk] == (post_id, s.tags[j].id));
            assert(s.taggings.contains((post_id, s.tags[j].id)));
        }
        if s.tag_names_of(post_id).contains(n) {
            let j = choose|j: int|
                0 <= j < s.tags.len() && #[trigger] s.tags[j].name == n && s.taggings.contains(
                    (post_id, s.tags[j].id),
                );
            let kk = choose|kk: int|
                0 <= kk < s.taggings.len() && s.taggings[kk] == (post_id, s.tags[j].id);
            assert(s.taggings[kk].0 == post_id && s.tags[j].id == s.taggings[kk].1);
        }
    }
    assert(s.names_upto(post_id, s.taggings.len() as int) =~= s.tag_names_of(post_id));
}

/// In a well-formed state a tag name picks out one tag id.
pub proof fn lemma_tag_id_named(s: StoreState, j: int)
    requires
        s.wf(),
        0 <= j < s.tags.len(),
    ensures
        s.tag_id_named(s.tags[j].name) == s.tags[j].id,
{
    let name = s.tags[j].name;
    assert(s.tags[j].name == name);
    let jj = choose|jj: int| 0 <= jj < s.tags.len() && #[trigger] s.tags[jj].name == name;
    if jj < j {
        assert(tag_before(s.tags[jj], s.tags[j]));
    } else if jj > j {
        assert(tag_before(s.tags[j], s.tags[jj]));
    }
}

/// In a well-formed state a digest picks out one post.
pub proof fn lemma_hash_index(s: StoreState, i: int)
    requires
        s.wf(),
        0 <= i < s.posts.len(),
    ensures
        s.hash_index(s.posts[i].hash) == i,
{
    let h = s.posts[i].hash;
    assert(s.posts[i].hash == h);
    let ii = s.hash_index(h);
    if ii < i {
        assert(post_before(s.posts[ii], s.posts[i]));
    } else if ii > i {
        assert(post_before(s.posts[i], s.posts[ii]));
    }
}

proof fn lemma_reserve_wf(s: StoreState, next_post: int, next_tag: int)
    requires
        s.wf(),
        next_post <= i64::MAX,
        next_tag <= i64::MAX,
    ensures
        s.reserve(next_post, next_tag).wf(),
{
    let t = s.reserve(next_post, next_tag);
    assert forall|k: int| 0 <= k < t.taggings.len() implies t.has_post(
        #[trigger] t.taggings[k].0,
    ) && t.has_tag_id(t.taggings[k].1) by {
        assert(s.has_post(s.taggings[k].0));
        let i = choose|i: int| 0 <= i < s.posts.len() && #[trigger] s.posts[i].id == s.taggings[k].0;
        assert(t.posts[i].id == t.taggings[k].0);
        let j = choose|j: int| 0 <= j < s.tags.len() && #[trigger] s.tags[j].id == s.taggings[k].1;
        assert(t.tags[j].id == t.taggings[k].1);
    }
}

/// A post new to the store carries no tag.
pub proof fn lemma_new_post_untagged(s: StoreState, rec: PostRecord)
    requires
        s.wf(),
        rec.id == s.next_post,
    ensures
        s.add_post(rec).tag_names_of(rec.id) == Set::<Seq<char>>::empty(),
{
    let t = s.add_post(rec);
    assert forall|n: Seq<char>| !#[trigger] t.tag_names_of(rec.id).contains(n) by {
        if t.tag_names_of(rec.id).contains(n) {
            let j = choose|j: int|
                0 <= j < t.tags.len() && #[trigger] t.tags[j].name == n && t.taggings.contains(
                    (rec.id, t.tags[j].id),
                );
            let k = choose|k: int| 0 <= k < s.taggings.len() && s.taggings[k] == (rec.id, t.tags[j].id);
            assert(s.has_post(s.taggings[k].0));
            let i = choose|i: int| 0 <= i < s.posts.len() && #[trigger] s.posts[i].id == rec.id;
        }
    }
    assert(t.tag_names_of(rec.id) =~= Set::<Seq<char>>::empty());
}

/// Giving a post a tag adds the name to that post's names and to nobody else's.
pub proof fn lemma_tag_post(s: StoreState, p: int, name: Seq<char>)
    requires
        s.wf(),
        s.has_post(p),
        s.has_tag_name(name) || s.next_tag < i64::MAX,
    ensures
        s.tag_post(p, name).wf(),
        s.tag_post(p, name).posts == s.posts,
        s.tag_post(p, name).next_post == s.next_post,
        s.tag_post(p, name).next_tag <= s.next_tag + 1,
        s.tag_post(p, name).has_tag_name(name),
        forall|q: int|
            #[trigger] s.tag_post(p, name).tag_names_of(q) == if q == p {
                s.tag_names_of(q).insert(name)
            } else {
                s.tag_names_of(q)
            },
{
    let s1 = if s.has_tag_name(name) {
        s
    } else {
        s.add_tag(name)
    };
    if !s.has_tag_name(name) {
        lemma_add_tag_wf(s, name);
        assert(s1.tags[s.tags.len() as int].name == name);
    }
    assert(s1.has_tag_name(name));
    let j = choose|j: int| 0 <= j < s1.tags.len() && #[trigger] s1.tags[j].name == name;
    lemma_tag_id_named(s1, j);
    let g = s1.tag_id_named(name);
    assert(s1.tags[j].id == g);
    assert(s1.has_tag_id(g));
    let i = choose|i: int| 0 <= i < s.posts.len() && #[trigger] s.posts[i].id == p;
    assert(s1.posts[i].id == p);
    if !s1.has_tagging(p, g) {
        lemma_add_tagging_wf(s1, p, g);
    }
    let t = s.tag_post(p, name);
    assert(t.tags[j].name == name);
    assert forall|q: int| #[trigger] t.tag_names_of(q) == if q == p {
        s.tag_names_of(q).insert(name)
    } else {
        s.tag_names_of(q)
    } by {
        if !s.has_tag_name(name) {
            lemma_add_tag_names(s, name, q);
        }
        if s1.has_tagging(p, g) {
            if q == p {
                assert(s1.tag_names_of(q).contains(name));
                assert(s1.tag_names_of(q).insert(name) =~= s1.tag_names_of(q));
            }
        } else {
            lemma_add_tagging_names(s1, p, j, q);
        }
    }
}

/// Taking a tag from a post removes the name from that post's names and from
/// nobody else's.
pub proof fn lemma_untag_post(s: StoreState, p: int, name: Seq<char>)
    requires
        s.wf(),
    ensures
        s.untag_post(p, name).wf(),
        s.untag_post(p, name).posts == s.posts,
        s.untag_post(p, name).tags == s.tags,
        s.untag_post(p, name).next_tag == s.next_tag,
        s.untag_post(p, name).next_post == s.next_post,
        forall|q: int|
            #[trigger] s.untag_post(p, name).tag_names_of(q) == if q == p {
                s.tag_names_of(q).remove(name)
            } else {
                s.tag_names_of(q)
            },
{
    let t = s.untag_post(p, name);
    if s.has_tag_name(name) {
        let j = choose|j: int| 0 <= j < s.tags.len() && #[trigger] s.tags[j].name == name;
        lemma_tag_id_named(s, j);
        lemma_drop_tagging_wf(s, p, s.tags[j].id);
        assert forall|q: int| #[trigger] t.tag_names_of(q) == if q == p {
            s.tag_names_of(q).remove(name)
        } else {
            s.tag_names_of(q)
        } by {
            lemma_drop_tagging_names(s, p, j, q);
        }
    } else {
        assert forall|q: int| #[trigger] t.tag_names_of(q) == if q == p {
            s.tag_names_of(q).remove(name)
        } else {
            s.tag_names_of(q)
        } by {
            if q == p {
                assert(!s.tag_names_of(q).contains(name));
                assert(s.tag_names_of(q).remove(name) =~= s.tag_names_of(q));
            }
        }
    }
}

/// A new tag carries no post yet: nobody's tag names change.
pub proof fn lemma_add_tag_names(s: StoreState, name: Seq<char>, q: int)
    requires
        s.wf(),
    ensures
        s.add_tag(name).tag_names_of(q) == s.tag_names_of(q),
{
    let t = s.add_tag(name);
    assert forall|n: Seq<char>| #[trigger] t.tag_names_of(q).contains(n) <==> s.tag_names_of(
        q,
    ).contains(n) by {
        if t.tag_names_of(q).contains(n) {
            let j = choose|j: int|
                0 <= j < t.tags.len() && #[trigger] t.tags[j].name == n && t.taggings.contains(
                    (q, t.tags[j].id),
                );
            if j == s.tags.len() {
                let k = choose|k: int| 0 <= k < s.taggings.len() && s.taggings[k] == (q, s.next_tag);
                assert(s.has_post(s.taggings[k].0));
                let jj = choose|jj: int| 0 <= jj < s.tags.len() && #[trigger] s.tags[jj].id == s.next_tag;
                assert(false);
            } else {
                assert(s.tags[j] == t.tags[j]);
            }
        }
        if s.tag_names_of(q).contains(n) {
            let j = choose|j: int|
                0 <= j < s.tags.len() && #[trigger] s.tags[j].name == n && s.taggings.contains(
                    (q, s.tags[j].id),
                );
            assert(t.tags[j] == s.tags[j]);
        }
    }
    assert(t.tag_names_of(q) =~= s.tag_names_of(q));
}

/// Linking a post to a tag adds that tag's name to the post's names alone.
pub proof fn lemma_add_tagging_names(s: StoreState, p: int, j: int, q: int)
    requires
        s.wf(),
        0 <= j < s.tags.len(),
    ensures
        s.add_tagging(p, s.tags[j].id).tag_names_of(q) == if q == p {
            s.tag_names_of(q).insert(s.tags[j].name)
        } else {
            s.tag_names_of(q)
        },
{
    let g = s.tags[j].id;
    let t = s.add_tagging(p, g);
    let expected = if q == p {
        s.tag_names_of(q).insert(s.tags[j].name)
    } else {
        s.tag_names_of(q)
    };
    assert forall|n: Seq<char>| #[trigger] t.tag_names_of(q).contains(n) <==> expected.contains(
        n,
    ) by {
        if t.tag_names_of(q).contains(n) {
            let jj = choose|jj: int|
                0 <= jj < t.tags.len() && #[trigger] t.tags[jj].name == n && t.taggings.contains(
                    (q, t.tags[jj].id),
                );
            let k = choose|k: int| 0 <= k < t.taggings.len() && t.taggings[k] == (q, t.tags[jj].id);
            if k < s.taggings.len() {
                assert(s.taggings[k] == t.taggings[k]);
                assert(s.taggings.contains((q, s.tags[jj].id)));
            } else {
                if jj < j {
                    assert(tag_before(s.tags[jj], s.tags[j]));
                } else if jj > j {
                    assert(tag_before(s.tags[j], s.tags[jj]));
                }
            }
        }
        if expected.contains(n) {
            if q == p && n == s.tags[j].name {
                assert(t.taggings[s.taggings.len() as int] == (q, t.tags[j].id));
                assert(t.taggings.contains((q, t.tags[j].id)));
            } else {
                let jj = choose|jj: int|
                    0 <= jj < s.tags.len() && #[trigger] s.tags[jj].name == n && s.taggings.contains(
                        (q, s.tags[jj].id),
                    );
                let k = choose|k: int| 0 <= k < s.taggings.len() && s.taggings[k] == (q, s.tags[jj].id);
                assert(t.taggings[k] == s.taggings[k]);
                assert(t.taggings.contains((q, t.tags[jj].id)));
            }
        }
    }
    assert(t.tag_names_of(q) =~= expected);
}

/// Unlinking a post from a tag takes that tag's name from the post's names
/// alone.
pub proof fn lemma_drop_tagging_names(s: StoreState, p: int, j: int, q: int)
    requires
        s.wf(),
        0 <= j < s.tags.len(),
    ensures
        s.drop_tagging(p, s.tags[j].id).tag_names_of(q) == if q == p {
            s.tag_names_of(q).remove(s.tags[j].name)
        } else {
            s.tag_names_of(q)
        },
{
    let g = s.tags[j].id;
    let t = s.drop_tagging(p, g);
    let pred = keeps_pair(Some(p), Some(g));
    lemma_filter_members(s.taggings, pred);
    let expected = if q == p {
        s.tag_names_of(q).remove(s.tags[j].name)
    } else {
        s.tag_names_of(q)
    };
    assert forall|n: Seq<char>| #[trigger] t.tag_names_of(q).contains(n) <==> expected.contains(
        n,
    ) by {
        if t.tag_names_of(q).contains(n) {
            let jj = choose|jj: int|
                0 <= jj < t.tags.len() && #[trigger] t.tags[jj].name == n && t.taggings.contains(
                    (q, t.tags[jj].id),
                );
            assert(s.taggings.contains((q, s.tags[jj].id)));
            assert(pred((q, s.tags[jj].id)));
            if q == p && n == s.tags[j].name {
                lemma_tag_id_named(s, j);
                lemma_tag_id_named(s, jj);
            }
        }
        if expected.contains(n) {
            let jj = choose|jj: int|
                0 <= jj < s.tags.len() && #[trigger] s.tags[jj].name == n && s.taggings.contains(
                    (q, s.tags[jj].id),
                );
            if q == p {
                assert(s.tags[jj].name != s.tags[j].name);
                assert(jj != j);
                if jj < j {
                    assert(tag_before(s.tags[jj], s.tags[j]));
                } else {
                    assert(tag_before(s.tags[j], s.tags[jj]));
                }
            }
            assert(pred((q, s.tags[jj].id)));
            assert(t.taggings.contains((q, t.tags[jj].id)));
        }
    }
    assert(t.tag_names_of(q) =~= expected);
}

pub proof fn lemma_add_post_wf(s: StoreState, rec: PostRecord)
    requires
        s.wf(),
        s.next_post <= rec.id < i64::MAX,
        !s.has_hash(rec.hash),
    ensures
        s.add_post(rec).wf(),
{
    let t = s.add_post(rec);
    assert forall|i: int, j: int| 0 <= i < j < t.posts.len() implies #[trigger] post_before(
        t.posts[i],
        t.posts[j],
    ) by {
        if j < s.posts.len() {
            assert(post_before(s.posts[i], s.posts[j]));
        } else {
            assert(t.posts[i] == s.posts[i]);
            assert(s.posts[i].id < s.next_post);
        }
    }
    assert forall|k: int| 0 <= k < t.taggings.len() implies t.has_post(
        #[trigger] t.taggings[k].0,
    ) && t.has_tag_id(t.taggings[k].1) by {
        assert(s.has_post(s.taggings[k].0));
        let i = choose|i: int| 0 <= i < s.posts.len() && #[trigger] s.posts[i].id == s.taggings[k].0;
        assert(t.posts[i] == s.posts[i]);
        assert(t.posts[i].id == t.taggings[k].0);
        let j = choose|j: int| 0 <= j < s.tags.len() && #[trigger] s.tags[j].id == s.taggings[k].1;
        assert(t.tags[j].id == t.taggings[k].1);
    }
}

pub proof fn lemma_add_tag_wf(s: StoreState, name: Seq<char>)
    requires
        s.wf(),
        s.next_tag < i64::MAX,
        !s.has_tag_name(name),
    ensures
        s.add_tag(name).wf(),
{
    let t = s.add_tag(name);
    assert forall|i: int, j: int| 0 <= i < j < t.tags.len() implies #[trigger] tag_before(
        t.tags[i],
        t.tags[j],
    ) by {
        if j < s.tags.len() {
            assert(tag_before(s.tags[i], s.tags[j]));
        } else {
            assert(t.tags[i] == s.tags[i]);
        }
    }
    assert forall|k: int| 0 <= k < t.taggings.len() implies t.has_post(
        #[trigger] t.taggings[k].0,
    ) && t.has_tag_id(t.taggings[k].1) by {
        assert(s.has_post(s.taggings[k].0));
        assert(s.has_tag_id(s.taggings[k].1));
        let j = choose|j: int| 0 <= j < s.tags.len() && #[trigger] s.tags[j].id == s.taggings[k].1;
        assert(t.tags[j] == s.tags[j]);
        assert(t.tags[j].id == t.taggings[k].1);
    }
}

proof fn lemma_add_tagging_wf(s: StoreState, post_id: int, tag_id: int)
    requires
        s.wf(),
        s.has_post(post_id),
        s.has_tag_id(tag_id),
        !s.has_tagging(post_id, tag_id),
    ensures
        s.add_tagging(post_id, tag_id).wf(),
{
    let t = s.add_tagging(post_id, tag_id);
    assert forall|i: int, j: int| 0 <= i < j < t.taggings.len() implies #[trigger] distinct_pairs(
        t.taggings[i],
        t.taggings[j],
    ) by {
        if j < s.taggings.len() {
            assert(distinct_pairs(s.taggings[i], s.taggings[j]));
        } else {
            assert(t.taggings[i] == s.taggings[i]);
        }
    }
    assert forall|k: int| 0 <= k < t.taggings.len() implies t.has_post(
        #[trigger] t.taggings[k].0,
    ) && t.has_tag_id(t.taggings[k].1) by {
        let (p, g) = if k < s.taggings.len() {
            assert(t.taggings[k] == s.taggings[k]);
            assert(s.has_post(s.taggings[k].0));
            s.taggings[k]
        } else {
            assert(t.taggings[k] == (post_id, tag_id));
            (post_id, tag_id)
        };
        assert(s.has_post(p) && s.has_tag_id(g));
        let i = choose|i: int| 0 <= i < s.posts.len() && #[trigger] s.posts[i].id == p;
        let j = choose|j: int| 0 <= j < s.tags.len() && #[trigger] s.tags[j].id == g;
        assert(t.posts[i].id == p);
        assert(t.tags[j].id == g);
    }
}

fn filter_posts(v: &Vec<PostRow>, post_id: i64) -> (r: Vec<PostRow>)
    ensures
        post_records(r@) == post_records(v@).filter(keeps_post(post_id as int)),
{
    reveal(Seq::filter);
    let mut out: Vec<PostRow> = Vec::new();
    let mut i: usize = 0;
    assert(post_records(v@.take(0)) =~= Seq::<PostRecord>::empty());
    assert(post_records(out@) =~= Seq::<PostRecord>::empty());
    while i < v.len()
        invariant
            i <= v.len(),
            post_records(out@) == post_records(v@.take(i as int)).filter(keeps_post(post_id as int)),
        decreases v.len() - i,
    {
        let ghost before = post_records(v@.take(i as int));
        assert(post_records(v@.take(i + 1)).drop_last() =~= before);
        proof {
            reveal(Seq::filter);
        }
        let ghost next = post_records(v@.take(i + 1));
        assert(next.filter(keeps_post(post_id as int)) == if keeps_post(post_id as int)(next.last()) {
            next.drop_last().filter(keeps_post(post_id as int)).push(next.last())
        } else {
            next.drop_last().filter(keeps_post(post_id as int))
        });
        assert(post_records(v@.take(i + 1)).last() == v@[i as int].record());
        if v[i].id != post_id {
            let ghost o = out@;
            out.push(v[i].duplicate());
            assert(post_records(out@) =~= post_records(o).push(v@[i as int].record()));
        }
        i = i + 1;
    }
    assert(v@.take(i as int) =~= v@);
    out
}

fn filter_tags(v: &Vec<TagRow>, tag_id: i64) -> (r: Vec<TagRow>)
    ensures
        tag_records(r@) == tag_records(v@).filter(keeps_tag(tag_id as int)),
{
    reveal(Seq::filter);
    let mut out: Vec<TagRow> = Vec::new();
    let mut i: usize = 0;
    assert(tag_records(v@.take(0)) =~= Seq::<TagRecord>::empty());
    assert(tag_records(out@) =~= Seq::<TagRecord>::empty());
    while i < v.len()
        invariant
            i <= v.len(),
            tag_records(out@) == tag_records(v@.take(i as int)).filter(keeps_tag(tag_id as int)),
        decreases v.len() - i,
    {
        let ghost before = tag_records(v@.take(i as int));
        assert(tag_records(v@.take(i + 1)).drop_last() =~= before);
        proof {
            reveal(Seq::filter);
        }
        let ghost next = tag_records(v@.take(i + 1));
        assert(next.filter(keeps_tag(tag_id as int)) == if keeps_tag(tag_id as int)(next.last()) {
            next.drop_last().filter(keeps_tag(tag_id as int)).push(next.last())
        } else {
            next.drop_last().filter(keeps_tag(tag_id as int))
        });
        assert(tag_records(v@.take(i + 1)).last() == v@[i as int].record());
        if v[i].id != tag_id {
            let ghost o = out@;
            out.push(v[i].duplicate());
            assert(tag_records(out@) =~= tag_records(o).push(v@[i as int].record()));
        }
        i = i + 1;
    }
    assert(v@.take(i as int) =~= v@);
    out
}

pub open spec fn opt_int(o: Option<i64>) -> Option<int> {
    match o {
        Some(x) => Some(x as int),
        None => None,
    }
}

fn filter_taggings(v: &Vec<Tagging>, post_id: Option<i64>, tag_id: Option<i64>) -> (r: Vec<
    Tagging,
>)
    ensures
        pair_records(r@) == pair_records(v@).filter(keeps_pair(opt_int(post_id), opt_int(tag_id))),
{
    reveal(Seq::filter);
    let ghost pred = keeps_pair(opt_int(post_id), opt_int(tag_id));
    let mut out: Vec<Tagging> = Vec::new();
    let mut i: usize = 0;
    assert(pair_records(v@.take(0)) =~= Seq::<(int, int)>::empty());
    assert(pair_records(out@) =~= Seq::<(int, int)>::empty());
    while i < v.len()
        invariant
            i <= v.len(),
            pred == keeps_pair(opt_int(post_id), opt_int(tag_id)),
            pair_records(out@) == pair_records(v@.take(i as int)).filter(pred),
        decreases v.len() - i,
    {
        let ghost before = pair_records(v@.take(i as int));
        let t = v[i];
        assert(pair_records(v@.take(i + 1)).drop_last() =~= before);
        proof {
            reveal(Seq::filter);
        }
        let ghost next = pair_records(v@.take(i + 1));
        assert(next.filter(pred) == if pred(next.last()) {
            next.drop_last().filter(pred).push(next.last())
        } else {
            next.drop_last().filter(pred)
        });
        assert(pair_records(v@.take(i + 1)).last() == (t.post_id as int, t.tag_id as int));
        let selected = (match post_id {
            Some(p) => t.post_id == p,
            None => true,
        }) && (match tag_id {
            Some(g) => t.tag_id == g,
            None => true,
        });
        if !selected {
            let ghost o = out@;
            out.push(t);
            assert(pair_records(out@) =~= pair_records(o).push((t.post_id as int, t.tag_id as int)));
        }
        i = i + 1;
    }
    assert(v@.take(i as int) =~= v@);
    out
}

proof fn lemma_drop_post_wf(s: StoreState, post_id: int)
    requires
        s.wf(),
    ensures
        s.drop_post(post_id).wf(),
{
    let t = s.drop_post(post_id);
    let rel_p = |a: PostRecord, b: PostRecord| post_before(a, b);
    let rel_g = |a: (int, int), b: (int, int)| distinct_pairs(a, b);
    assert(pairwise(s.posts, rel_p)) by {
        assert forall|i: int, j: int| 0 <= i < j < s.posts.len() implies #[trigger] rel_p(
            s.posts[i],
            s.posts[j],
        ) by {
            assert(post_before(s.posts[i], s.posts[j]));
        }
    }
    assert(pairwise(s.taggings, rel_g)) by {
        assert forall|i: int, j: int| 0 <= i < j < s.taggings.len() implies #[trigger] rel_g(
            s.taggings[i],
            s.taggings[j],
        ) by {
            assert(distinct_pairs(s.taggings[i], s.taggings[j]));
        }
    }
    lemma_filter_pairwise(s.posts, keeps_post(post_id), rel_p);
    lemma_filter_pairwise(s.taggings, keeps_pair(Some(post_id), None), rel_g);
    lemma_filter_members(s.posts, keeps_post(post_id));
    lemma_filter_members(s.taggings, keeps_pair(Some(post_id), None));
    assert forall|i: int, j: int| 0 <= i < j < t.posts.len() implies #[trigger] post_before(
        t.posts[i],
        t.posts[j],
    ) by {
        assert(rel_p(t.posts[i], t.posts[j]));
    }
    assert forall|i: int, j: int| 0 <= i < j < t.taggings.len() implies #[trigger] distinct_pairs(
        t.taggings[i],
        t.taggings[j],
    ) by {
        assert(rel_g(t.taggings[i], t.taggings[j]));
    }
    assert forall|i: int| 0 <= i < t.posts.len() implies 1 <= #[trigger] t.posts[i].id
        < t.next_post by {
        assert(s.posts.contains(t.posts[i]));
    }
    assert forall|k: int| 0 <= k < t.taggings.len() implies t.has_post(
        #[trigger] t.taggings[k].0,
    ) && t.has_tag_id(t.taggings[k].1) by {
        let x = t.taggings[k];
        assert(s.taggings.contains(x));
        let m = choose|m: int| 0 <= m < s.taggings.len() && s.taggings[m] == x;
        assert(s.has_post(s.taggings[m].0));
        let i = choose|i: int| 0 <= i < s.posts.len() && #[trigger] s.posts[i].id == x.0;
        assert(keeps_post(post_id)(s.posts[i]));
        assert(t.posts.contains(s.posts[i]));
        let i2 = choose|i2: int| 0 <= i2 < t.posts.len() && t.posts[i2] == s.posts[i];
        assert(t.posts[i2].id == x.0);
        let j = choose|j: int| 0 <= j < s.tags.len() && #[trigger] s.tags[j].id == x.1;
        assert(t.tags[j].id == x.1);
    }
}

proof fn lemma_drop_tag_wf(s: StoreState, tag_id: int)
    requires
        s.wf(),
    ensures
        s.drop_tag(tag_id).wf(),
{
    let t = s.drop_tag(tag_id);
    let rel_t = |a: TagRecord, b: TagRecord| tag_before(a, b);
    let rel_g = |a: (int, int), b: (int, int)| distinct_pairs(a, b);
    assert(pairwise(s.tags, rel_t)) by {
        assert forall|i: int, j: int| 0 <= i < j < s.tags.len() implies #[trigger] rel_t(
            s.tags[i],
            s.tags[j],
        ) by {
            assert(tag_before(s.tags[i], s.tags[j]));
        }
    }
    assert(pairwise(s.taggings, rel_g)) by {
        assert forall|i: int, j: int| 0 <= i < j < s.taggings.len() implies #[trigger] rel_g(
            s.taggings[i],
            s.taggings[j],
        ) by {
            assert(distinct_pairs(s.taggings[i], s.taggings[j]));
        }
    }
    lemma_filter_pairwise(s.tags, keeps_tag(tag_id), rel_t);
    lemma_filter_pairwise(s.taggings, keeps_pair(None, Some(tag_id)), rel_g);
    lemma_filter_members(s.tags, keeps_tag(tag_id));
    lemma_filter_members(s.taggings, keeps_pair(None, Some(tag_id)));
    assert forall|i: int, j: int| 0 <= i < j < t.tags.len() implies #[trigger] tag_before(
        t.tags[i],
        t.tags[j],
    ) by {
        assert(rel_t(t.tags[i], t.tags[j]));
    }
    assert forall|i: int, j: int| 0 <= i < j < t.taggings.len() implies #[trigger] distinct_pairs(
        t.taggings[i],
        t.taggings[j],
    ) by {
        assert(rel_g(t.taggings[i], t.taggings[j]));
    }
    assert forall|j: int| 0 <= j < t.tags.len() implies 1 <= #[trigger] t.tags[j].id
        < t.next_tag by {
        assert(s.tags.contains(t.tags[j]));
    }
    assert forall|k: int| 0 <= k < t.taggings.len() implies t.has_post(
        #[trigger] t.taggings[k].0,
    ) && t.has_tag_id(t.taggings[k].1) by {
        let x = t.taggings[k];
        assert(s.taggings.contains(x));
        let m = choose|m: int| 0 <= m < s.taggings.len() && s.taggings[m] == x;
        assert(s.has_post(s.taggings[m].0));
        let i = choose|i: int| 0 <= i < s.posts.len() && #[trigger] s.posts[i].id == x.0;
        assert(t.posts[i].id == x.0);
        let j = choose|j: int| 0 <= j < s.tags.len() && #[trigger] s.tags[j].id == x.1;
        assert(keeps_tag(tag_id)(s.tags[j]));
        assert(t.tags.contains(s.tags[j]));
        let j2 = choose|j2: int| 0 <= j2 < t.tags.len() && t.tags[j2] == s.tags[j];
        assert(t.tags[j2].id == x.1);
    }
}

proof fn lemma_drop_tagging_wf(s: StoreState, post_id: int, tag_id: int)
    requires
        s.wf(),
    ensures
        s.drop_tagging(post_id, tag_id).wf(),
{
    let t = s.drop_tagging(post_id, tag_id);
    let rel_g = |a: (int, int), b: (int, int)| distinct_pairs(a, b);
    assert(pairwise(s.taggings, rel_g)) by {
        assert forall|i: int, j: int| 0 <= i < j < s.taggings.len() implies #[trigger] rel_g(
            s.taggings[i],
            s.taggings[j],
        ) by {
            assert(distinct_pairs(s.taggings[i], s.taggings[j]));
        }
    }
    lemma_filter_pairwise(s.taggings, keeps_pair(Some(post_id), Some(tag_id)), rel_g);
    lemma_filter_members(s.taggings, keeps_pair(Some(post_id), Some(tag_id)));
    assert forall|i: int, j: int| 0 <= i < j < t.taggings.len() implies #[trigger] distinct_pairs(
        t.taggings[i],
        t.taggings[j],
    ) by {
        assert(rel_g(t.taggings[i], t.taggings[j]));
    }
    assert forall|k: int| 0 <= k < t.taggings.len() implies t.has_post(
        #[trigger] t.taggings[k].0,
    ) && t.has_tag_id(t.taggings[k].1) by {
        let x = t.taggings[k];
        assert(s.taggings.contains(x));
        let m = choose|m: int| 0 <= m < s.taggings.len() && s.taggings[m] == x;
        assert(s.has_post(s.taggings[m].0));
        let i = choose|i: int| 0 <= i < s.posts.len() && #[trigger] s.posts[i].id == x.0;
        assert(t.posts[i].id == x.0);
        let j = choose|j: int| 0 <= j < s.tags.len() && #[trigger] s.tags[j].id == x.1;
        assert(t.tags[j].id == x.1);
    }
}

pub fn bytes_equal(a: &[u8; 32], b: &[u8; 32]) -> (r: bool)
    ensures
        r == (a@ == b@),
{
    let mut i: usize = 0;
    while i < 32
        invariant
            i <= 32,
            a@.len() == 32,
            b@.len() == 32,
            forall|m: int| 0 <= m < i ==> a@[m] == b@[m],
        decreases 32 - i,
    {
        if a[i] != b[i] {
            return false;
        }
        i = i + 1;
    }
    assert(a@ =~= b@);
    true
}

} // verus!
