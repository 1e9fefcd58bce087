use vstd::prelude::*;
use crate::post::Post;

verus! {

/// What the worker tells the front end.
pub enum FromWorker {
    /// Ask the front end for the handle that wakes it up.
    RequestContext,
    /// Replace the list of posts on show.
    SetPosts(Vec<Post>),
    ShowProgress(bool),
    /// Files done so far, and in all.
    SetProgress(usize, usize),
    SetProgressMessage(Option<String>),
    SetSelected(Option<usize>),
}

/// What the front end asks of the worker.
pub enum FromGUI {
    /// The front end has handed over its wake-up handle.
    SendContext,
    RequestAllPosts,
    /// Ingest these files, and the files under these directories.
    RequestNewPosts(Vec<String>),
    SetSelected(Option<usize>),
    RemoveTag(i64, String),
    AddTag(i64, String),
    Search(String),
}

} // verus!
