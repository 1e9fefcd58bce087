use mediastore::db::{Database, StoreError};
use mediastore::hash::hash_bytes;
use mediastore::post::Post;
use mediastore::search::{new as search_query, partition_terms, split_query};

fn s(x: &str) -> String {
    x.to_string()
}

fn strings(xs: &[&str]) -> Vec<String> {
    xs.iter().map(|x| x.to_string()).collect()
}

fn ingest(db: &mut Database, content: &[u8], name: &str) -> (Post, bool) {
    Post::new(hash_bytes(content), Some(s("png")), s(name), db).unwrap()
}

fn ids(posts: &[Post]) -> Vec<i64> {
    posts.iter().map(|p| p.id).collect()
}

/// Three posts: 1 tagged a, 2 tagged a and b, 3 tagged b.
fn three_posts() -> Database {
    let mut db = Database::new();
    let (mut p1, _) = ingest(&mut db, b"one", "one.png");
    let (mut p2, _) = ingest(&mut db, b"two", "two.png");
    let (mut p3, _) = ingest(&mut db, b"three", "three.png");
    p1.add_tag(&s("a"), &mut db).unwrap();
    p2.add_tags(&strings(&["a", "b"]), &mut db).unwrap();
    p3.add_tag(&s("b"), &mut db).unwrap();
    db
}

#[test]
fn same_content_twice_is_one_post() {
    let mut db = Database::new();
    let (first, created1) = ingest(&mut db, b"same bytes", "a.png");
    let (second, created2) =
        Post::new(hash_bytes(b"same bytes"), None, s("elsewhere/b.jpg"), &mut db).unwrap();
    assert!(created1);
    assert!(!created2);
    assert_eq!(first.id, 1);
    assert_eq!(second.id, first.id);
    assert_eq!(second.original_name, "a.png");
    assert_eq!(db.all().unwrap().len(), 1);
}

#[test]
fn ids_start_at_one_and_are_not_reused() {
    let mut db = Database::new();
    let (p1, _) = ingest(&mut db, b"x", "x");
    let (p2, _) = ingest(&mut db, b"y", "y");
    assert_eq!((p1.id, p2.id), (1, 2));
    p2.delete(&mut db).unwrap();
    let (p3, _) = ingest(&mut db, b"z", "z");
    assert_eq!(p3.id, 3);
}

#[test]
fn insert_post_reports_existing_with_zero() {
    let mut db = Database::new();
    let (p, _) = ingest(&mut db, b"x", "x");
    assert_eq!(db.insert_post(&p), Ok(0));
}

#[test]
fn add_tag_twice_keeps_count() {
    let mut db = Database::new();
    let (mut p, _) = ingest(&mut db, b"x", "x");
    assert_eq!(p.add_tag(&s("t"), &mut db), Ok(true));
    let once = p.tags.len();
    assert_eq!(p.add_tag(&s("t"), &mut db), Ok(false));
    assert_eq!(p.tags.len(), once);
    assert_eq!(db.get_post_id(p.id).unwrap().tags, strings(&["t"]));
}

#[test]
fn remove_missing_tag_is_noop() {
    let mut db = Database::new();
    let (mut p, _) = ingest(&mut db, b"x", "x");
    p.add_tag(&s("keep"), &mut db).unwrap();
    assert_eq!(p.remove_tag(&s("absent"), &mut db), Ok(()));
    assert_eq!(p.tags, strings(&["keep"]));
    assert_eq!(db.get_post_id(p.id).unwrap().tags, strings(&["keep"]));
}

#[test]
fn search_all_of_required() {
    let db = three_posts();
    let found = db.search(strings(&["a", "b"]), vec![]).unwrap();
    assert_eq!(ids(&found), vec![2]);
    let found_a = db.search(strings(&["a"]), vec![]).unwrap();
    assert_eq!(ids(&found_a), vec![1, 2]);
}

#[test]
fn search_excludes() {
    let db = three_posts();
    let found = db.search(strings(&["a"]), strings(&["b"])).unwrap();
    assert_eq!(ids(&found), vec![1]);
}

#[test]
fn search_with_nothing_required_is_empty() {
    let db = three_posts();
    assert!(db.search(vec![], vec![]).unwrap().is_empty());
    assert!(db.search(vec![], strings(&["b"])).unwrap().is_empty());
}

#[test]
fn search_counts_repeated_names_once() {
    let db = three_posts();
    let found = db.search(strings(&["a", "a"]), vec![]).unwrap();
    assert_eq!(ids(&found), vec![1, 2]);
}

#[test]
fn search_unknown_tag_finds_nothing() {
    let db = three_posts();
    assert!(db.search(strings(&["nope"]), vec![]).unwrap().is_empty());
}

#[test]
fn search_results_carry_tags() {
    let db = three_posts();
    let found = db.search(strings(&["b"]), vec![]).unwrap();
    assert_eq!(ids(&found), vec![2, 3]);
    assert_eq!(found[0].tags, strings(&["a", "b"]));
    assert_eq!(found[1].tags, strings(&["b"]));
}

#[test]
fn query_tokens_split_into_required_and_excluded() {
    let (with, without) = partition_terms(strings(&["a", "-b", "c", "-"]));
    assert_eq!(with, strings(&["a", "c"]));
    assert_eq!(without, strings(&["b", ""]));
}

#[test]
fn query_split_keeps_empty_pieces() {
    assert_eq!(split_query("a -b"), strings(&["a", "-b"]));
    assert_eq!(split_query("a  b"), strings(&["a", "", "b"]));
    assert_eq!(split_query(""), strings(&[""]));
}

#[test]
fn search_query_tokens() {
    let db = three_posts();
    let found = search_query(strings(&["b", "-a"]), &db).unwrap();
    assert_eq!(ids(&found), vec![3]);
}

#[test]
fn delete_forgets_post_and_taggings() {
    let mut db = three_posts();
    let p2 = db.get_post_id(2).unwrap();
    p2.delete(&mut db).unwrap();
    assert_eq!(db.get_post_id(2).err(), Some(StoreError::NotFound));
    assert!(db.get_post_tags(2).unwrap().is_empty());
    assert_eq!(db.tagging_rows().iter().filter(|t| t.0 == 2).count(), 0);
    let mut p1 = db.get_post_id(1).unwrap();
    assert_eq!(p1.remove_tag(&s("a"), &mut db), Ok(()));
    assert!(db.get_post_id(1).unwrap().tags.is_empty());
    assert_eq!(ids(&db.search(strings(&["b"]), vec![]).unwrap()), vec![3]);
}

#[test]
fn end_to_end_tagging() {
    let mut db = Database::new();
    let h = hash_bytes(b"file F");
    let (_, created) = Post::new(h, Some(s("jpg")), s("F.jpg"), &mut db).unwrap();
    assert!(created);
    let mut post = db.get_post_blake3(h).unwrap();
    assert!(post.tags.is_empty());
    post.add_tags(&strings(&["x", "y"]), &mut db).unwrap();
    assert_eq!(db.get_post_blake3(h).unwrap().tags, strings(&["x", "y"]));
    post.remove_tags(&strings(&["x"]), &mut db).unwrap();
    assert_eq!(db.get_post_blake3(h).unwrap().tags, strings(&["y"]));
    assert_eq!(post.tags, strings(&["y"]));
}

#[test]
fn lookups_fail_with_not_found() {
    let mut db = Database::new();
    assert_eq!(db.get_post_id(7).err(), Some(StoreError::NotFound));
    assert_eq!(db.get_post_blake3([0u8; 32]).err(), Some(StoreError::NotFound));
    assert_eq!(db.get_tag_id(&s("t")), Err(StoreError::NotFound));
    assert_eq!(db.remove_tag(&s("t")), Err(StoreError::NotFound));
    assert_eq!(db.insert_tagging(1, 1), Err(StoreError::NotFound));
}

#[test]
fn tags_are_made_once_and_outlive_their_taggings() {
    let mut db = Database::new();
    let (mut p, _) = ingest(&mut db, b"x", "x");
    assert_eq!(db.get_or_create_tag(&s("t")), Ok(1));
    assert_eq!(db.get_or_create_tag(&s("t")), Ok(1));
    assert_eq!(db.insert_tag(&s("t")), Ok(0));
    p.add_tag(&s("t"), &mut db).unwrap();
    p.remove_tag(&s("t"), &mut db).unwrap();
    assert_eq!(db.get_tag_id(&s("t")), Ok(1));
    assert_eq!(db.tag_rows().len(), 1);
}

#[test]
fn remove_tag_globally() {
    let mut db = three_posts();
    assert_eq!(db.remove_tag(&s("a")), Ok(1));
    assert_eq!(db.get_post_id(2).unwrap().tags, strings(&["b"]));
    assert!(db.get_post_id(1).unwrap().tags.is_empty());
    assert_eq!(db.get_tag_id(&s("a")), Err(StoreError::NotFound));
}

#[test]
fn stale_snapshot_remove_reports_missing_tag() {
    let mut db = three_posts();
    let mut p1 = db.get_post_id(1).unwrap();
    db.remove_tag(&s("a")).unwrap();
    assert_eq!(p1.remove_tag(&s("a"), &mut db), Err(StoreError::NotFound));
    assert!(p1.tags.is_empty());
}

#[test]
fn tagging_a_deleted_post_fails() {
    let mut db = Database::new();
    let (mut p, _) = ingest(&mut db, b"x", "x");
    let copy = db.get_post_id(p.id).unwrap();
    copy.delete(&mut db).unwrap();
    assert_eq!(p.add_tag(&s("t"), &mut db), Err(StoreError::NotFound));
    assert!(p.tags.is_empty());
}

#[test]
fn duplicate_tagging_is_silent() {
    let mut db = Database::new();
    ingest(&mut db, b"x", "x");
    let t = db.get_or_create_tag(&s("t")).unwrap();
    assert_eq!(db.insert_tagging(1, t), Ok(true));
    assert_eq!(db.insert_tagging(1, t), Ok(false));
    assert_eq!(db.tagging_rows(), vec![(1, t)]);
    assert_eq!(db.remove_tagging(1, t), Ok(()));
    assert_eq!(db.remove_tagging(1, t), Ok(()));
    assert!(db.tagging_rows().is_empty());
}

#[test]
fn rollback_restores_begin_state() {
    let mut db = Database::new();
    ingest(&mut db, b"x", "x");
    assert_eq!(db.begin(), Ok(()));
    assert_eq!(db.begin(), Err(StoreError::StorageFailure));
    ingest(&mut db, b"y", "y");
    db.get_or_create_tag(&s("t")).unwrap();
    assert_eq!(db.rollback(), Ok(()));
    assert_eq!(ids(&db.all().unwrap()), vec![1]);
    assert!(db.tag_rows().is_empty());
    assert_eq!(db.next_ids(), (2, 1));
    assert_eq!(db.rollback(), Err(StoreError::StorageFailure));
}

#[test]
fn commit_keeps_changes() {
    let mut db = Database::new();
    assert_eq!(db.commit(), Err(StoreError::StorageFailure));
    db.begin().unwrap();
    ingest(&mut db, b"x", "x");
    assert_eq!(db.commit(), Ok(()));
    assert_eq!(ids(&db.all().unwrap()), vec![1]);
}

#[test]
fn restore_keeps_saved_ids() {
    let mut db = Database::new();
    let saved = Post {
        id: 5,
        blake3_bytes: hash_bytes(b"x"),
        extension: None,
        original_name: s("x"),
        tags: vec![],
    };
    assert_eq!(db.restore_post(&saved), Ok(()));
    assert_eq!(db.restore_post(&saved), Err(StoreError::StorageFailure));
    assert_eq!(db.restore_tag(4, &s("t")), Ok(()));
    assert_eq!(db.restore_tag(2, &s("u")), Err(StoreError::StorageFailure));
    assert_eq!(db.insert_tagging(5, 4), Ok(true));
    db.reserve_ids(9, 3);
    assert_eq!(db.next_ids(), (9, 5));
    assert_eq!(db.get_post_id(5).unwrap().tags, strings(&["t"]));
    let (fresh, _) = ingest(&mut db, b"y", "y");
    assert_eq!(fresh.id, 9);
}

#[test]
fn all_lists_posts_by_id() {
    let db = three_posts();
    let all = db.all().unwrap();
    assert_eq!(ids(&all), vec![1, 2, 3]);
    assert_eq!(all[1].tags, strings(&["a", "b"]));
    assert_eq!(db.get_post_tags(2).unwrap(), strings(&["a", "b"]));
}
