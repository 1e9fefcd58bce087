use mediastore::db::{Database, StoreError};
use mediastore::hash::hash_bytes;
use mediastore::message::{FromGUI, FromWorker};
use mediastore::post::Post;
use mediastore::worker::{IngestBatch, Worker};

fn s(x: &str) -> String {
    x.to_string()
}

fn posts_of(ev: &FromWorker) -> Vec<i64> {
    match ev {
        FromWorker::SetPosts(v) => v.iter().map(|p| p.id).collect(),
        _ => panic!("expected SetPosts"),
    }
}

fn worker_with_three() -> Worker {
    let mut db = Database::new();
    for (content, name) in [(&b"1"[..], "1.png"), (&b"2"[..], "2.png"), (&b"3"[..], "3.png")] {
        Post::new(hash_bytes(content), None, s(name), &mut db).unwrap();
    }
    let (w, first) = Worker::create(db);
    assert!(matches!(first, FromWorker::RequestContext));
    w
}

#[test]
fn all_posts_newest_first() {
    let mut w = worker_with_three();
    let ev = w.handle(FromGUI::RequestAllPosts).unwrap();
    assert_eq!(ev.len(), 1);
    assert_eq!(posts_of(&ev[0]), vec![3, 2, 1]);
}

#[test]
fn context_turns_on_wakeups() {
    let mut w = worker_with_three();
    assert!(!w.should_wake());
    assert!(w.handle(FromGUI::SendContext).unwrap().is_empty());
    assert!(w.should_wake());
}

#[test]
fn selection_is_echoed() {
    let mut w = worker_with_three();
    let ev = w.handle(FromGUI::SetSelected(Some(4))).unwrap();
    assert!(matches!(ev[0], FromWorker::SetSelected(Some(4))));
}

#[test]
fn tag_messages_change_the_store() {
    let mut w = worker_with_three();
    assert!(w.handle(FromGUI::AddTag(2, s("cat"))).unwrap().is_empty());
    assert!(w.handle(FromGUI::AddTag(3, s("cat"))).unwrap().is_empty());
    let ev = w.handle(FromGUI::Search(s("cat"))).unwrap();
    assert_eq!(posts_of(&ev[0]), vec![2, 3]);
    w.handle(FromGUI::RemoveTag(2, s("cat"))).unwrap();
    let ev = w.handle(FromGUI::Search(s("cat"))).unwrap();
    assert_eq!(posts_of(&ev[0]), vec![3]);
    assert_eq!(w.database().get_post_id(2).unwrap().tags.len(), 0);
}

#[test]
fn tag_messages_report_failures() {
    let mut w = worker_with_three();
    assert_eq!(w.handle(FromGUI::AddTag(9, s("cat"))).err(), Some(StoreError::NotFound));
    assert_eq!(w.handle(FromGUI::RemoveTag(1, s("cat"))).err(), Some(StoreError::NotFound));
    assert!(w.database().tag_rows().is_empty());
}

#[test]
fn search_message_with_exclusion() {
    let mut w = worker_with_three();
    w.handle(FromGUI::AddTag(1, s("a"))).unwrap();
    w.handle(FromGUI::AddTag(2, s("a"))).unwrap();
    w.handle(FromGUI::AddTag(2, s("b"))).unwrap();
    let ev = w.handle(FromGUI::Search(s("a -b"))).unwrap();
    assert_eq!(posts_of(&ev[0]), vec![1]);
    let ev = w.handle(FromGUI::Search(s(""))).unwrap();
    assert!(posts_of(&ev[0]).is_empty());
}

#[test]
fn new_posts_request_opens_a_batch() {
    let mut w = worker_with_three();
    let ev = w.handle(FromGUI::RequestNewPosts(vec![s("a.png")])).unwrap();
    assert_eq!(ev.len(), 3);
    assert!(matches!(ev[0], FromWorker::ShowProgress(true)));
    assert!(matches!(ev[1], FromWorker::SetProgress(0, 100)));
    match &ev[2] {
        FromWorker::SetProgressMessage(Some(m)) => assert_eq!(m, "Reading..."),
        _ => panic!("expected a message"),
    }
}

#[test]
fn batch_reports_progress_and_newest_first() {
    let mut w = worker_with_three();
    let mut batch = IngestBatch::start(12);
    let mut seen = Vec::new();
    for i in 0..12u8 {
        match batch.before_file("dir/f.png") {
            FromWorker::SetProgressMessage(Some(m)) => seen.push(m),
            _ => panic!("expected a message"),
        }
        let content = if i == 11 { vec![b'1'] } else { vec![b'n', i] };
        let outcome = w.ingest_file(hash_bytes(&content), None, s("f.png")).ok().map(|(p, _)| p);
        match batch.after_file(outcome) {
            FromWorker::SetProgress(done, total) => assert_eq!((done, total), (i as usize + 1, 12)),
            _ => panic!("expected progress"),
        }
    }
    assert!(batch.is_finished());
    assert_eq!(seen[0], "0/12  dir/f.png");
    assert_eq!(seen[10], "10/12  dir/f.png");
    let ev = batch.finish();
    let ids = posts_of(&ev[0]);
    assert_eq!(ids.len(), 12);
    assert_eq!(ids[0], 1);
    assert_eq!(ids[1], 14);
    assert_eq!(ids[11], 4);
    assert!(matches!(ev[1], FromWorker::ShowProgress(false)));
}

#[test]
fn ingest_file_twice_creates_once() {
    let mut w = worker_with_three();
    let (a, created_a) = w.ingest_file(hash_bytes(b"new"), Some(s("gif")), s("x.gif")).unwrap();
    let (b, created_b) = w.ingest_file(hash_bytes(b"new"), None, s("y")).unwrap();
    assert!(created_a && !created_b);
    assert_eq!(a.id, 4);
    assert_eq!(b.id, 4);
    assert_eq!(b.extension, Some(s("gif")));
}
