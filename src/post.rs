use vstd::prelude::*;
use crate::config::Config;
use crate::paths::{hex_of, sharded, sharded_path, with_extension};
use crate::db::{
    lemma_hash_index, lemma_new_post_untagged, lemma_tag_post, lemma_untag_post, Database,
    StoreError,
};
use crate::text::{
    contains_string, insert_sorted, join_commas, join_with_commas, remove_sorted, sorted_unique,
    views,
};

verus! {

/// An optional string, seen as an optional character sequence.
pub open spec fn opt_view(o: Option<String>) -> Option<Seq<char>> {
    match o {
        Some(s) => Some(s@),
        None => None,
    }
}

/// A post as the store records it, apart from its tags.
pub struct PostRecord {
    pub id: int,
    pub hash: Seq<u8>,
    pub extension: Option<Seq<char>>,
    pub name: Seq<char>,
}

/// A detached snapshot of one stored file: its id, its content digest, its
/// extension, the name it was ingested under, and its tags, kept sorted.
pub struct Post {
    pub id: i64,
    pub blake3_bytes: [u8; 32],
    pub extension: Option<String>,
    pub original_name: String,
    pub tags: Vec<String>,
}

impl Post {
    pub open spec fn record(&self) -> PostRecord {
        PostRecord {
            id: self.id as int,
            hash: self.blake3_bytes@,
            extension: opt_view(self.extension),
            name: self.original_name@,
        }
    }

    pub open spec fn tag_set(&self) -> Set<Seq<char>> {
        views(self.tags@).to_set()
    }

    /// The tags are held in ascending order, each once.
    pub open spec fn wf(&self) -> bool {
        sorted_unique(views(self.tags@))
    }

    /// Ingests content by its digest. When a post with that digest is stored,
    /// returns it, with `false`, and writes nothing: the caller copies no file.
    /// Otherwise stores a new post under the next id, with no tags, and returns
    /// it with `true`: the caller then copies the file and makes its thumbnail.
    pub fn new(
        blake3_bytes: [u8; 32],
        extension: Option<String>,
        original_name: String,
        db: &mut Database,
    ) -> (r: Result<(Post, bool), StoreError>)
        requires
            old(db).wf(),
        ensures
            final(db).wf(),
            final(db).snapshot() == old(db).snapshot(),
            !old(db)@.has_hash(blake3_bytes@) && old(db)@.next_post == i64::MAX ==> r == Err::<
                (Post, bool),
                StoreError,
            >(StoreError::StorageFailure) && final(db)@ == old(db)@,
            old(db)@.has_hash(blake3_bytes@) || old(db)@.next_post < i64::MAX ==> (r matches Ok(
                (p, created),
            ) && created == !old(db)@.has_hash(blake3_bytes@) && p.id == old(db)@.ingest_id(
                blake3_bytes@,
            ) && final(db)@ == old(db)@.ingest(
                blake3_bytes@,
                opt_view(extension),
                original_name@,
            ) && p.wf() && p.tag_set() == final(db)@.tag_names_of(p.id as int) && (created
                ==> p.tag_set() == Set::<Seq<char>>::empty()) && (created
                ==> p.record() == (PostRecord {
                id: old(db)@.next_post,
                hash: blake3_bytes@,
                extension: opt_view(extension),
                name: original_name@,
            })) && (!created ==> p.record() == old(db)@.posts[old(db)@.hash_index(
                blake3_bytes@,
            )])),
    {
        let ghost s = db@;
        let mut post = Post { id: 0, blake3_bytes, extension, original_name, tags: Vec::new() };
        let row_id = db.insert_post(&post)?;
        if row_id == 0 {
            let existing = db.get_post_blake3(post.blake3_bytes);
            match existing {
                Ok(p) => {
                    proof {
                        let i = choose|i: int| 0 <= i < s.posts.len() && #[trigger] s.posts[i] == p.record();
                        lemma_hash_index(s, i);
                    }
                    return Ok((p, false));
                },
                Err(e) => {
                    return Err(e);
                },
            }
        }
        post.id = row_id;
        proof {
            lemma_new_post_untagged(s, post.record());
            assert(views(post.tags@) =~= Seq::<Seq<char>>::empty());
            assert(post.tag_set() =~= Set::<Seq<char>>::empty());
        }
        Ok((post, true))
    }

    /// Gives the post a tag, in this snapshot and in the store, making the tag
    /// first if no tag has that name. A tag the snapshot already has is left
    /// alone. Returns whether the tag was added.
    pub fn add_tag(&mut self, tag: &String, db: &mut Database) -> (r: Result<bool, StoreError>)
        requires
            old(self).wf(),
            old(db).wf(),
        ensures
            final(self).wf(),
            final(db).wf(),
            final(db).snapshot() == old(db).snapshot(),
            final(self).record() == old(self).record(),
            final(db)@.posts == old(db)@.posts,
            final(db)@.next_tag <= old(db)@.next_tag + 1,
            r is Err || old(self).tag_set().contains(tag@) ==> final(self).tag_set() == old(self).tag_set() && final(db)@ == old(db)@,
            old(self).tag_set().contains(tag@) ==> r == Ok::<bool, StoreError>(false),
            !old(self).tag_set().contains(tag@) && !old(db)@.has_post(old(self).id as int) ==> r
                == Err::<bool, StoreError>(StoreError::NotFound),
            !old(self).tag_set().contains(tag@) && old(db)@.has_post(old(self).id as int)
                && !old(db)@.has_tag_name(tag@) && old(db)@.next_tag == i64::MAX ==> r == Err::<
                bool,
                StoreError,
            >(StoreError::StorageFailure),
            old(self).tag_set() == old(db)@.tag_names_of(old(self).id as int) && r is Ok
                ==> final(self).tag_set() == final(db)@.tag_names_of(old(self).id as int),
            !old(self).tag_set().contains(tag@) && old(db)@.has_post(old(self).id as int) && (old(db)@.has_tag_name(tag@) || old(db)@.next_tag < i64::MAX) ==> r == Ok::<bool, StoreError>(
                true,
            ) && final(self).tag_set() == old(self).tag_set().insert(tag@) && final(db)@ == old(db)@.tag_post(old(self).id as int, tag@) && forall|q: int| #[trigger]
                final(db)@.tag_names_of(q) == if q == old(self).id {
                    old(db)@.tag_names_of(q).insert(tag@)
                } else {
                    old(db)@.tag_names_of(q)
                },
    {
        if contains_string(&self.tags, tag.as_str()) {
            return Ok(false);
        }
        if !db.contains_post(self.id) {
            return Err(StoreError::NotFound);
        }
        let ghost s = db@;
        let tag_id = db.get_or_create_tag(tag)?;
        proof {
            lemma_tag_post(s, self.id as int, tag@);
            let s1 = db@;
            let j = if s.has_tag_name(tag@) {
                choose|j: int| 0 <= j < s.tags.len() && #[trigger] s.tags[j].id == tag_id && s.tags[j].name == tag@
            } else {
                s.tags.len() as int
            };
            assert(s1.tags[j].id == tag_id && s1.tags[j].name == tag@);
            crate::db::lemma_tag_id_named(s1, j);
            assert(s1.has_tag_id(tag_id as int));
            let i = choose|i: int| 0 <= i < s.posts.len() && #[trigger] s.posts[i].id == self.id;
            assert(s1.posts[i].id == self.id);
        }
        let linked = db.insert_tagging(self.id, tag_id);
        if linked.is_err() {
            return Err(StoreError::NotFound);
        }
        insert_sorted(&mut self.tags, tag.as_str());
        Ok(true)
    }

    /// Gives the post each tag of the list in turn, stopping at the first
    /// failure.
    pub fn add_tags(&mut self, tags: &Vec<String>, db: &mut Database) -> (r: Result<(), StoreError>)
        requires
            old(self).wf(),
            old(db).wf(),
        ensures
            final(self).wf(),
            final(db).wf(),
            final(db).snapshot() == old(db).snapshot(),
            final(self).record() == old(self).record(),
            old(db)@.has_post(old(self).id as int) && old(db)@.next_tag + tags.len() < i64::MAX
                ==> r is Ok,
            old(self).tag_set() == old(db)@.tag_names_of(old(self).id as int) && r is Ok
                ==> final(self).tag_set() == final(db)@.tag_names_of(old(self).id as int),
            r is Ok ==> final(self).tag_set() == old(self).tag_set().union(views(tags@).to_set()),
            r is Ok ==> final(db)@.tag_names_of(old(self).id as int) == old(db)@.tag_names_of(
                old(self).id as int,
            ).union(views(tags@).to_set().difference(old(self).tag_set())),
            forall|q: int|
                q != old(self).id ==> #[trigger] final(db)@.tag_names_of(q) == old(db)@.tag_names_of(q),
    {
        let ghost s0 = db@;
        let ghost initial = self.tag_set();
        let ghost id = self.id as int;
        let mut i: usize = 0;
        assert(views(tags@.take(0)).to_set() =~= Set::<Seq<char>>::empty());
        assert(self.tag_set().union(Set::<Seq<char>>::empty()) =~= self.tag_set());
        assert(s0.tag_names_of(id).union(Set::<Seq<char>>::empty().difference(initial)) =~= s0.tag_names_of(id));
        while i < tags.len()
            invariant
                self.wf(),
                db.wf(),
                db.snapshot() == old(db).snapshot(),
                s0 == old(db)@,
                initial == old(self).tag_set(),
                id == old(self).id as int,
                self.record() == old(self).record(),
                i <= tags.len(),
                db@.posts == s0.posts,
                db@.next_tag <= s0.next_tag + i,
                self.tag_set() == initial.union(views(tags@.take(i as int)).to_set()),
                db@.tag_names_of(id) == s0.tag_names_of(id).union(
                    views(tags@.take(i as int)).to_set().difference(initial),
                ),
                forall|q: int| q != id ==> #[trigger] db@.tag_names_of(q) == s0.tag_names_of(q),
            decreases tags.len() - i,
        {
            let ghost before = self.tag_set();
            let ghost names_before = db@.tag_names_of(id);
            let ghost t = tags@[i as int]@;
            assert(views(tags@.take(i + 1)) =~= views(tags@.take(i as int)).push(t));
            proof {
                views(tags@.take(i as int)).lemma_push_to_set_commute(t);
            }
            self.add_tag(&tags[i], db)?;
            proof {
                let added = views(tags@.take(i as int)).to_set();
                if before.contains(t) {
                    assert(initial.union(added.insert(t)) =~= initial.union(added));
                    if initial.contains(t) {
                        assert(added.insert(t).difference(initial) =~= added.difference(initial));
                    } else {
                        assert(added.contains(t));
                        assert(added.insert(t) =~= added);
                    }
                } else {
                    assert(initial.union(added.insert(t)) =~= initial.union(added).insert(t));
                    assert(!initial.contains(t));
                    assert(added.insert(t).difference(initial) =~= added.difference(initial).insert(t));
                    assert(s0.tag_names_of(id).union(added.insert(t).difference(initial)) =~= s0.tag_names_of(
                        id,
                    ).union(added.difference(initial)).insert(t));
                }
            }
            i = i + 1;
        }
        assert(tags@.take(i as int) =~= tags@);
        Ok(())
    }

    /// Takes a tag from the post, in this snapshot and in the store. A tag the
    /// snapshot lacks is left alone, without error. Fails with `NotFound`,
    /// after dropping the name from the snapshot, when no tag of that name is
    /// stored.
    pub fn remove_tag(&mut self, tag: &String, db: &mut Database) -> (r: Result<(), StoreError>)
        requires
            old(self).wf(),
            old(db).wf(),
        ensures
            final(self).wf(),
            final(db).wf(),
            final(db).snapshot() == old(db).snapshot(),
            final(self).record() == old(self).record(),
            final(db)@.posts == old(db)@.posts,
            final(db)@.tags == old(db)@.tags,
            !old(self).tag_set().contains(tag@) ==> r is Ok && final(self).tag_set() == old(self).tag_set() && final(db)@ == old(db)@,
            old(self).tag_set().contains(tag@) ==> final(self).tag_set() == old(self).tag_set().remove(
                tag@,
            ),
            old(self).tag_set() == old(db)@.tag_names_of(old(self).id as int) && r is Ok
                ==> final(self).tag_set() == final(db)@.tag_names_of(old(self).id as int),
            old(self).tag_set().contains(tag@) && !old(db)@.has_tag_name(tag@) ==> r == Err::<
                (),
                StoreError,
            >(StoreError::NotFound) && final(db)@ == old(db)@,
            old(self).tag_set().contains(tag@) && old(db)@.has_tag_name(tag@) ==> r is Ok && final(db)@ == old(db)@.untag_post(old(self).id as int, tag@),
            forall|q: int| #[trigger]
                final(db)@.tag_names_of(q) == if q == old(self).id && old(self).tag_set().contains(
                    tag@,
                ) {
                    old(db)@.tag_names_of(q).remove(tag@)
                } else {
                    old(db)@.tag_names_of(q)
                },
    {
        if !contains_string(&self.tags, tag.as_str()) {
            return Ok(());
        }
        remove_sorted(&mut self.tags, tag.as_str());
        let ghost s = db@;
        proof {
            lemma_untag_post(s, self.id as int, tag@);
            if !s.has_tag_name(tag@) {
                assert forall|q: int| #[trigger] s.tag_names_of(q) == if q == self.id {
                    s.tag_names_of(q).remove(tag@)
                } else {
                    s.tag_names_of(q)
                } by {
                    assert(s.untag_post(self.id as int, tag@) == s);
                }
            }
        }
        let tag_id = db.get_tag_id(tag)?;
        proof {
            let j = choose|j: int| 0 <= j < s.tags.len() && #[trigger] s.tags[j].id == tag_id && s.tags[j].name == tag@;
            crate::db::lemma_tag_id_named(s, j);
        }
        db.remove_tagging(self.id, tag_id)?;
        Ok(())
    }

    /// Takes each tag of the list from the post in turn, stopping at the first
    /// failure.
    pub fn remove_tags(&mut self, tags: &Vec<String>, db: &mut Database) -> (r: Result<(), StoreError>)
        requires
            old(self).wf(),
            old(db).wf(),
        ensures
            final(self).wf(),
            final(db).wf(),
            final(db).snapshot() == old(db).snapshot(),
            final(self).record() == old(self).record(),
            (forall|t: Seq<char>|
                #[trigger] views(tags@).contains(t) && old(self).tag_set().contains(t) ==> old(db)@.has_tag_name(t)) ==> r is Ok,
            old(self).tag_set() == old(db)@.tag_names_of(old(self).id as int) && r is Ok
                ==> final(self).tag_set() == final(db)@.tag_names_of(old(self).id as int),
            r is Ok ==> final(self).tag_set() == old(self).tag_set().difference(views(tags@).to_set()),
            r is Ok ==> final(db)@.tag_names_of(old(self).id as int) == old(db)@.tag_names_of(
                old(self).id as int,
            ).difference(views(tags@).to_set().intersect(old(self).tag_set())),
            forall|q: int|
                q != old(self).id ==> #[trigger] final(db)@.tag_names_of(q) == old(db)@.tag_names_of(q),
    {
        let ghost s0 = db@;
        let ghost initial = self.tag_set();
        let ghost id = self.id as int;
        let mut i: usize = 0;
        assert(views(tags@.take(0)).to_set() =~= Set::<Seq<char>>::empty());
        assert(initial.difference(Set::<Seq<char>>::empty()) =~= initial);
        assert(s0.tag_names_of(id).difference(Set::<Seq<char>>::empty().intersect(initial)) =~= s0.tag_names_of(id));
        while i < tags.len()
            invariant
                self.wf(),
                db.wf(),
                db.snapshot() == old(db).snapshot(),
                s0 == old(db)@,
                initial == old(self).tag_set(),
                id == old(self).id as int,
                self.record() == old(self).record(),
                i <= tags.len(),
                db@.tags == s0.tags,
                self.tag_set() == initial.difference(views(tags@.take(i as int)).to_set()),
                db@.tag_names_of(id) == s0.tag_names_of(id).difference(
                    views(tags@.take(i as int)).to_set().intersect(initial),
                ),
                forall|q: int| q != id ==> #[trigger] db@.tag_names_of(q) == s0.tag_names_of(q),
                (forall|t: Seq<char>|
                    #[trigger] views(tags@).contains(t) && initial.contains(t) ==> s0.has_tag_name(t))
                    ==> (forall|t: Seq<char>|
                    #[trigger] views(tags@).contains(t) && initial.contains(t) ==> db@.has_tag_name(t)),
            decreases tags.len() - i,
        {
            let ghost t = tags@[i as int]@;
            assert(views(tags@.take(i + 1)) =~= views(tags@.take(i as int)).push(t));
            assert(views(tags@).contains(t)) by {
                assert(views(tags@)[i as int] == t);
            }
            proof {
                views(tags@.take(i as int)).lemma_push_to_set_commute(t);
            }
            let ghost before = self.tag_set();
            self.remove_tag(&tags[i], db)?;
            proof {
                let removed = views(tags@.take(i as int)).to_set();
                assert(initial.difference(removed.insert(t)) =~= initial.difference(removed).remove(t));
                if before.contains(t) {
                    assert(initial.contains(t));
                    assert(removed.insert(t).intersect(initial) =~= removed.intersect(initial).insert(t));
                    assert(s0.tag_names_of(id).difference(removed.insert(t).intersect(initial))
                        =~= s0.tag_names_of(id).difference(removed.intersect(initial)).remove(t));
                } else {
                    if initial.contains(t) {
                        assert(removed.contains(t));
                        assert(removed.insert(t) =~= removed);
                    } else {
                        assert(removed.insert(t).intersect(initial) =~= removed.intersect(initial));
                    }
                }
            }
            i = i + 1;
        }
        assert(tags@.take(i as int) =~= tags@);
        Ok(())
    }

    /// Removes the post and all its taggings from the store.
    pub fn delete(self, db: &mut Database) -> (r: Result<(), StoreError>)
        requires
            old(db).wf(),
        ensures
            final(db).wf(),
            final(db).snapshot() == old(db).snapshot(),
            r is Ok,
            final(db)@ == old(db)@.drop_post(self.id as int),
    {
        db.remove_post(self.id)
    }

    /// Where the stored copy of the file lives under the configured root.
    pub fn get_db_file(&self, config: &Config) -> (r: String)
        ensures
            r@ == with_extension(
                sharded(config.db_file_path@, hex_of(self.blake3_bytes@)),
                opt_view(self.extension),
            ),
    {
        sharded_path(config.db_file_path.as_str(), &self.blake3_bytes, &self.extension)
    }

    /// Where the thumbnail of the file lives: the same sharded place under the
    /// thumbnail root, always with the `jpg` extension.
    pub fn get_db_thumbnail(&self, config: &Config) -> (r: String)
        ensures
            r@ == with_extension(
                sharded(config.db_thumbnail_path@, hex_of(self.blake3_bytes@)),
                Some("jpg"@),
            ),
    {
        let jpg = Some(String::from_str("jpg"));
        proof {
            reveal_strlit("jpg");
        }
        sharded_path(config.db_thumbnail_path.as_str(), &self.blake3_bytes, &jpg)
    }

    /// The tags in ascending order, separated by commas.
    pub fn get_tag_string(&self) -> (r: String)
        ensures
            exists|s: Seq<Seq<char>>|
                sorted_unique(s) && s.to_set() == self.tag_set() && r@ == join_commas(s),
    {
        let mut sorted: Vec<String> = Vec::new();
        let mut i: usize = 0;
        assert(views(sorted@).to_set() =~= views(self.tags@.take(0)).to_set());
        while i < self.tags.len()
            invariant
                i <= self.tags.len(),
                sorted_unique(views(sorted@)),
                views(sorted@).to_set() == views(self.tags@.take(i as int)).to_set(),
            decreases self.tags.len() - i,
        {
            insert_sorted(&mut sorted, self.tags[i].as_str());
            assert(views(self.tags@.take(i + 1)) =~= views(self.tags@.take(i as int)).push(
                self.tags@[i as int]@,
            ));
            proof {
                views(self.tags@.take(i as int)).lemma_push_to_set_commute(self.tags@[i as int]@);
            }
            i = i + 1;
        }
        assert(self.tags@.take(i as int) =~= self.tags@);
        join_with_commas(&sorted)
    }
}

} // verus!
