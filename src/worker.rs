use vstd::prelude::*;
use crate::db::{matching, records_of, snapshots_of, Database, StoreError, StoreState};
use crate::message::{FromGUI, FromWorker};
use crate::post::{opt_view, Post, PostRecord};
use crate::search::{excluded_terms, new as run_query, required_terms, split_on, split_query};
use crate::text::{push_char, views};

verus! {

/// The decimal digits of `n`, most significant first.
pub open spec fn decimal_of(n: nat) -> Seq<char>
    decreases n,
{
    if n < 10 {
        seq![crate::paths::hex_digit(n as int)]
    } else {
        decimal_of(n / 10).push(crate::paths::hex_digit((n % 10) as int))
    }
}

fn push_decimal(out: &mut String, n: usize)
    ensures
        final(out)@ == old(out)@ + decimal_of(n as nat),
    decreases n,
{
    if n >= 10 {
        push_decimal(out, n / 10);
    }
    push_char(out, crate::paths::hex_digit_char((n % 10) as u8));
    assert(final(out)@ =~= old(out)@ + decimal_of(n as nat));
}

/// The status line shown while the file at `path` is taken in:
/// `<current>/<total>  <path>`.
pub open spec fn progress_text(current: nat, total: nat, path: Seq<char>) -> Seq<char> {
    decimal_of(current) + seq!['/'] + decimal_of(total) + seq![' ', ' '] + path
}

pub fn reverse_posts(v: Vec<Post>) -> (r: Vec<Post>)
    ensures
        r@ == v@.reverse(),
{
    let ghost orig = v@;
    let mut v = v;
    let mut out: Vec<Post> = Vec::new();
    while v.len() > 0
        invariant
            v@ == orig.take(v.len() as int),
            out@.len() + v@.len() == orig.len(),
            forall|k: int| 0 <= k < out@.len() ==> out@[k] == orig[orig.len() - 1 - k],
        decreases v.len(),
    {
        let p = v.pop().unwrap();
        assert(p == orig[v@.len() as int]);
        out.push(p);
        assert(v@ =~= orig.take(v.len() as int));
    }
    assert(out@ =~= orig.reverse());
    out
}

/// The worker: it alone owns the store, and answers the front end's
/// messages one at a time, each to completion.
pub struct Worker {
    db: Database,
    context_known: bool,
}

impl Worker {
    pub closed spec fn store(&self) -> Database {
        self.db
    }

    /// Whether the front end has handed over its wake-up handle, so that each
    /// message sent should be followed by a wake-up.
    pub closed spec fn knows_context(&self) -> bool {
        self.context_known
    }

    pub open spec fn wf(&self) -> bool {
        self.store().wf()
    }

    /// Takes the store over; the first message asks for the front end's handle.
    pub fn create(db: Database) -> (r: (Worker, FromWorker))
        requires
            db.wf(),
        ensures
            r.0.wf(),
            r.0.store() == db,
            !r.0.knows_context(),
            r.1 is RequestContext,
    {
        (Worker { db, context_known: false }, FromWorker::RequestContext)
    }

    pub fn database(&self) -> (r: &Database)
        ensures
            *r == self.store(),
    {
        &self.db
    }

    /// Whether a wake-up should follow each message sent.
    pub fn should_wake(&self) -> (r: bool)
        ensures
            r == self.knows_context(),
    {
        self.context_known
    }

    /// Answers one message of the front end. A request for new posts only
    /// opens the batch here: the files are taken in by `IngestBatch`.
    pub fn handle(&mut self, msg: FromGUI) -> (r: Result<Vec<FromWorker>, StoreError>)
        requires
            old(self).wf(),
        ensures
            final(self).wf(),
            final(self).store().snapshot() == old(self).store().snapshot(),
            final(self).knows_context() == (old(self).knows_context() || msg is SendContext),
            !(msg is AddTag || msg is RemoveTag) ==> final(self).store()@ == old(self).store()@,
            match msg {
                FromGUI::SendContext => r matches Ok(ev) && ev.len() == 0,
                FromGUI::RequestAllPosts => r matches Ok(ev) && sets_posts(
                    ev@,
                    old(self).store()@.posts.reverse(),
                    old(self).store()@,
                ),
                FromGUI::RequestNewPosts(_) => r matches Ok(ev) && opening_events(ev@),
                FromGUI::SetSelected(s) => r matches Ok(ev) && ev.len() == 1 && ev[0] == FromWorker::SetSelected(s),
                FromGUI::RemoveTag(post_id, tag) => {
                    &&& !old(self).store()@.has_tag_name(tag@) ==> r == Err::<Vec<FromWorker>, StoreError>(StoreError::NotFound)
                        && final(self).store()@ == old(self).store()@
                    &&& old(self).store()@.has_tag_name(tag@) ==> (r matches Ok(ev) && ev.len() == 0)
                        && final(self).store()@ == old(self).store()@.untag_post(post_id as int, tag@)
                },
                FromGUI::AddTag(post_id, tag) => {
                    let s = old(self).store()@;
                    &&& !s.has_post(post_id as int) ==> r == Err::<Vec<FromWorker>, StoreError>(StoreError::NotFound)
                        && final(self).store()@ == s
                    &&& s.has_post(post_id as int) && !s.has_tag_name(tag@) && s.next_tag == i64::MAX
                        ==> r == Err::<Vec<FromWorker>, StoreError>(StoreError::StorageFailure) && final(self).store()@ == s
                    &&& s.has_post(post_id as int) && (s.has_tag_name(tag@) || s.next_tag < i64::MAX)
                        ==> (r matches Ok(ev) && ev.len() == 0) && final(self).store()@ == s.tag_post(post_id as int, tag@)
                },
                FromGUI::Search(query) => {
                    let tokens = split_on(query@, ' ');
                    r matches Ok(ev) && sets_posts(
                        ev@,
                        old(self).store()@.posts.filter(
                            matching(
                                old(self).store()@,
                                required_terms(tokens).to_set(),
                                excluded_terms(tokens).to_set(),
                            ),
                        ),
                        old(self).store()@,
                    )
                },
            },
    {
        match msg {
            FromGUI::SendContext => {
                self.context_known = true;
                Ok(Vec::new())
            },
            FromGUI::RequestAllPosts => {
                let posts = self.db.all()?;
                let posts = reverse_posts(posts);
                proof {
                    assert(records_of(posts@) =~= self.db@.posts.reverse());
                }
                let mut ev: Vec<FromWorker> = Vec::new();
                ev.push(FromWorker::SetPosts(posts));
                Ok(ev)
            },
            FromGUI::RequestNewPosts(_) => Ok(IngestBatch::opening()),
            FromGUI::SetSelected(s) => {
                let mut ev: Vec<FromWorker> = Vec::new();
                ev.push(FromWorker::SetSelected(s));
                Ok(ev)
            },
            FromGUI::RemoveTag(post_id, tag) => {
                let ghost s = self.db@;
                let tag_id = self.db.get_tag_id(&tag)?;
                proof {
                    let j = choose|j: int| 0 <= j < s.tags.len() && #[trigger] s.tags[j].id == tag_id && s.tags[j].name == tag@;
                    crate::db::lemma_tag_id_named(s, j);
                }
                self.db.remove_tagging(post_id, tag_id)?;
                Ok(Vec::new())
            },
            FromGUI::AddTag(post_id, tag) => {
                if !self.db.contains_post(post_id) {
                    return Err(StoreError::NotFound);
                }
                let ghost s = self.db@;
                let tag_id = self.db.get_or_create_tag(&tag)?;
                proof {
                    let s1 = self.db@;
                    let j = if s.has_tag_name(tag@) {
                        choose|j: int| 0 <= j < s.tags.len() && #[trigger] s.tags[j].id == tag_id && s.tags[j].name == tag@
                    } else {
                        s.tags.len() as int
                    };
                    assert(s1.tags[j].id == tag_id && s1.tags[j].name == tag@);
                    crate::db::lemma_tag_id_named(s1, j);
                    assert(s1.has_tag_id(tag_id as int));
                    let i = choose|i: int| 0 <= i < s.posts.len() && #[trigger] s.posts[i].id == post_id;
                    assert(s1.posts[i].id == post_id);
                    if !s.has_tag_name(tag@) {
                        assert(s1.tags[j].name == tag@);
                    }
                }
                self.db.insert_tagging(post_id, tag_id)?;
                Ok(Vec::new())
            },
            FromGUI::Search(query) => {
                let tokens = split_query(query.as_str());
                let posts = run_query(tokens, &self.db)?;
                let mut ev: Vec<FromWorker> = Vec::new();
                ev.push(FromWorker::SetPosts(posts));
                Ok(ev)
            },
        }
    }

    /// Takes in one file of a batch by its digest (see `Post::new`). Returns
    /// the post and whether it is new, in which case the caller copies the file
    /// and makes its thumbnail.
    pub fn ingest_file(
        &mut self,
        blake3_bytes: [u8; 32],
        extension: Option<String>,
        original_name: String,
    ) -> (r: Result<(Post, bool), StoreError>)
        requires
            old(self).wf(),
        ensures
            final(self).wf(),
            final(self).knows_context() == old(self).knows_context(),
            final(self).store().snapshot() == old(self).store().snapshot(),
            !old(self).store()@.has_hash(blake3_bytes@) && old(self).store()@.next_post == i64::MAX
                ==> r == Err::<(Post, bool), StoreError>(StoreError::StorageFailure)
                && final(self).store()@ == old(self).store()@,
            old(self).store()@.has_hash(blake3_bytes@) || old(self).store()@.next_post < i64::MAX
                ==> (r matches Ok((p, created)) && created == !old(self).store()@.has_hash(
                blake3_bytes@,
            ) && p.id == old(self).store()@.ingest_id(blake3_bytes@) && final(self).store()@ == old(
                self,
            ).store()@.ingest(blake3_bytes@, opt_view(extension), original_name@)),
    {
        Post::new(blake3_bytes, extension, original_name, &mut self.db)
    }
}

/// The events are one `SetPosts`, whose posts are faithful snapshots with
/// these records, in this order.
pub open spec fn sets_posts(ev: Seq<FromWorker>, expected: Seq<PostRecord>, s: StoreState) -> bool {
    &&& ev.len() == 1
    &&& match ev[0] {
        FromWorker::SetPosts(v) => records_of(v@) == expected && snapshots_of(s, v@),
        _ => false,
    }
}

/// The events that open a batch: show the progress bar, at zero of a hundred,
/// with the message `Reading...`.
pub open spec fn opening_events(ev: Seq<FromWorker>) -> bool {
    &&& ev.len() == 3
    &&& ev[0] == FromWorker::ShowProgress(true)
    &&& ev[1] == FromWorker::SetProgress(0, 100)
    &&& ev[2] matches FromWorker::SetProgressMessage(Some(m)) && m@ == "Reading..."@
}

/// The progress of one batch of files being taken in: how many there are, how
/// many are done, and the posts they gave.
pub struct IngestBatch {
    total: usize,
    done: usize,
    posts: Vec<Post>,
}

impl IngestBatch {
    pub closed spec fn total(&self) -> nat {
        self.total as nat
    }

    pub closed spec fn done(&self) -> nat {
        self.done as nat
    }

    pub closed spec fn posts(&self) -> Seq<Post> {
        self.posts@
    }

    pub fn opening() -> (r: Vec<FromWorker>)
        ensures
            opening_events(r@),
    {
        let mut ev: Vec<FromWorker> = Vec::new();
        ev.push(FromWorker::ShowProgress(true));
        ev.push(FromWorker::SetProgress(0, 100));
        let m = String::from_str("Reading...");
        ev.push(FromWorker::SetProgressMessage(Some(m)));
        ev
    }

    /// A batch over `total` files, none done yet.
    pub fn start(total: usize) -> (r: IngestBatch)
        ensures
            r.total() == total,
            r.done() == 0,
            r.posts().len() == 0,
    {
        IngestBatch { total, done: 0, posts: Vec::new() }
    }

    pub fn is_finished(&self) -> (r: bool)
        ensures
            r == (self.done() >= self.total()),
    {
        self.done >= self.total
    }

    /// The status line to send before the next file is taken in.
    pub fn before_file(&self, path: &str) -> (r: FromWorker)
        ensures
            r matches FromWorker::SetProgressMessage(Some(m)) && m@ == progress_text(
                self.done(),
                self.total(),
                path@,
            ),
    {
        let mut m = String::new();
        push_decimal(&mut m, self.done);
        push_char(&mut m, '/');
        push_decimal(&mut m, self.total);
        push_char(&mut m, ' ');
        push_char(&mut m, ' ');
        m.append(path);
        assert(m@ =~= progress_text(self.done(), self.total(), path@));
        FromWorker::SetProgressMessage(Some(m))
    }

    /// Records how the file went (the post it gave, or none when it failed),
    /// and returns the progress to send.
    pub fn after_file(&mut self, outcome: Option<Post>) -> (r: FromWorker)
        requires
            old(self).done() < old(self).total(),
        ensures
            final(self).total() == old(self).total(),
            final(self).done() == old(self).done() + 1,
            final(self).posts() == match outcome {
                Some(p) => old(self).posts().push(p),
                None => old(self).posts(),
            },
            r == FromWorker::SetProgress((old(self).done() + 1) as usize, old(self).total() as usize),
    {
        match outcome {
            Some(p) => self.posts.push(p),
            None => {},
        }
        self.done = self.done + 1;
        FromWorker::SetProgress(self.done, self.total)
    }

    /// The closing events: the batch's posts, latest first, and the progress
    /// bar hidden.
    pub fn finish(self) -> (r: Vec<FromWorker>)
        ensures
            r.len() == 2,
            r[0] matches FromWorker::SetPosts(v) && v@ == self.posts().reverse(),
            r[1] == FromWorker::ShowProgress(false),
    {
        let posts = reverse_posts(self.posts);
        let mut ev: Vec<FromWorker> = Vec::new();
        ev.push(FromWorker::SetPosts(posts));
        ev.push(FromWorker::ShowProgress(false));
        ev
    }
}

} // verus!
