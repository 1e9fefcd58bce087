use vstd::prelude::*;
use crate::db::{matching, records_of, snapshots_of, Database, StoreError};
use crate::post::Post;
use crate::text::{push_char, views};

verus! {

/// A query token that asks to leave a tag out: it starts with `-`.
pub open spec fn is_negated(t: Seq<char>) -> bool {
    t.len() > 0 && t[0] == '-'
}

/// The tokens that ask for a tag, in order.
pub open spec fn required_terms(tokens: Seq<Seq<char>>) -> Seq<Seq<char>>
    decreases tokens.len(),
{
    if tokens.len() == 0 {
        Seq::empty()
    } else if is_negated(tokens.last()) {
        required_terms(tokens.drop_last())
    } else {
        required_terms(tokens.drop_last()).push(tokens.last())
    }
}

/// The tags that the negated tokens leave out, without their `-`, in order.
pub open spec fn excluded_terms(tokens: Seq<Seq<char>>) -> Seq<Seq<char>>
    decreases tokens.len(),
{
    if tokens.len() == 0 {
        Seq::empty()
    } else if is_negated(tokens.last()) {
        excluded_terms(tokens.drop_last()).push(tokens.last().drop_first())
    } else {
        excluded_terms(tokens.drop_last())
    }
}

/// The pieces of `s` between single occurrences of `c`, as `str::split` cuts
/// them: empty pieces are kept, and there is always at least one.
pub open spec fn split_on(s: Seq<char>, c: char) -> Seq<Seq<char>>
    decreases s.len(),
{
    if s.len() == 0 {
        seq![Seq::empty()]
    } else if s.last() == c {
        split_on(s.drop_last(), c).push(Seq::empty())
    } else {
        let parts = split_on(s.drop_last(), c);
        parts.update(parts.len() - 1, parts.last().push(s.last()))
    }
}

proof fn lemma_split_nonempty(s: Seq<char>, c: char)
    ensures
        split_on(s, c).len() >= 1,
    decreases s.len(),
{
    if s.len() > 0 {
        lemma_split_nonempty(s.drop_last(), c);
    }
}

/// Cuts a query at each space.
pub fn split_query(query: &str) -> (r: Vec<String>)
    ensures
        views(r@) == split_on(query@, ' '),
{
    let n = query.unicode_len();
    let mut parts: Vec<String> = Vec::new();
    let mut current = String::new();
    let mut i: usize = 0;
    assert(query@.take(0) =~= Seq::<char>::empty());
    assert(views(parts@).push(current@) =~= split_on(query@.take(0), ' '));
    while i < n
        invariant
            n == query@.len(),
            i <= n,
            views(parts@).push(current@) == split_on(query@.take(i as int), ' '),
        decreases n - i,
    {
        let c = query.get_char(i);
        let ghost prefix = query@.take(i + 1);
        assert(prefix.drop_last() =~= query@.take(i as int));
        assert(prefix.last() == c);
        proof {
            lemma_split_nonempty(query@.take(i as int), ' ');
        }
        if c == ' ' {
            let ghost o = views(parts@);
            parts.push(current);
            current = String::new();
            assert(views(parts@) =~= o.push(views(parts@).last()));
            assert(views(parts@).push(current@) =~= split_on(prefix, ' '));
        } else {
            let ghost o = views(parts@);
            push_char(&mut current, c);
            assert(views(parts@).push(current@) =~= split_on(prefix, ' '));
        }
        i = i + 1;
    }
    assert(query@.take(n as int) =~= query@);
    let ghost o = views(parts@);
    parts.push(current);
    assert(views(parts@) =~= o.push(current@));
    parts
}

/// Sorts query tokens into the tags asked for and, from those starting
/// with `-`, the tags left out.
pub fn partition_terms(tags: Vec<String>) -> (r: (Vec<String>, Vec<String>))
    ensures
        views(r.0@) == required_terms(views(tags@)),
        views(r.1@) == excluded_terms(views(tags@)),
{
    let mut with_tags: Vec<String> = Vec::new();
    let mut without_tags: Vec<String> = Vec::new();
    let mut i: usize = 0;
    assert(views(tags@).take(0) =~= Seq::<Seq<char>>::empty());
    assert(views(with_tags@) =~= required_terms(views(tags@).take(0)));
    assert(views(without_tags@) =~= excluded_terms(views(tags@).take(0)));
    while i < tags.len()
        invariant
            i <= tags.len(),
            views(with_tags@) == required_terms(views(tags@).take(i as int)),
            views(without_tags@) == excluded_terms(views(tags@).take(i as int)),
        decreases tags.len() - i,
    {
        let t = tags[i].as_str();
        let ghost prefix = views(tags@).take(i + 1);
        assert(prefix.drop_last() =~= views(tags@).take(i as int));
        assert(prefix.last() == t@);
        let n = t.unicode_len();
        if n > 0 && t.get_char(0) == '-' {
            let ghost o = views(without_tags@);
            without_tags.push(t.substring_char(1, n).to_owned());
            assert(t@.subrange(1, n as int) =~= t@.drop_first());
            assert(views(without_tags@) =~= o.push(t@.drop_first()));
        } else {
            let ghost o = views(with_tags@);
            with_tags.push(t.to_owned());
            assert(views(with_tags@) =~= o.push(t@));
        }
        i = i + 1;
    }
    assert(views(tags@).take(i as int) =~= views(tags@));
    (with_tags, without_tags)
}

/// Runs a query of tokens: plain tokens name tags a post must carry, tokens
/// starting with `-` name tags it must not carry.
pub fn new(tags: Vec<String>, db: &Database) -> (r: Result<Vec<Post>, StoreError>)
    requires
        db.wf(),
    ensures
        r matches Ok(v) && records_of(v@) == db@.posts.filter(
            matching(
                db@,
                required_terms(views(tags@)).to_set(),
                excluded_terms(views(tags@)).to_set(),
            ),
        ) && snapshots_of(db@, v@),
{
    let (with_tags, without_tags) = partition_terms(tags);
    db.search(with_tags, without_tags)
}

} // verus!
