//! Events that reach the control loop from the two sides.

use vstd::prelude::*;

verus! {

/// What the local watcher saw happen to a path.
#[derive(Debug)]
pub enum LocalEventKind {
    Create(String),
    Modify(String),
    Remove(String),
    Rename(String, String),
}

/// A debounced local change, numbered in order of arrival.
#[derive(Debug)]
pub struct LocalEvent {
    pub seq: u64,
    pub kind: LocalEventKind,
}

/// One entry of the remote activity feed.
#[derive(Debug)]
pub enum RemoteEvent {
    FileCreated { path: String, etag: String, size: Option<u64>, is_dir: bool },
    FileChanged { path: String, etag: String, size: Option<u64> },
    FileDeleted { path: String },
    FileRenamed { from: String, to: String, etag: String },
}

} // verus!
