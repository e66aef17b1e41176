//! Decisions of the repair protocols: where a local file is preserved when
//! the remote side wins a conflict, and what becomes of the local events that
//! were queued while offline.

use vstd::prelude::*;
use vstd::string::*;
use crate::paths::str_eq;
use crate::cancel::TokenView;
use crate::events::{LocalEvent, LocalEventKind, RemoteEvent};
use crate::exclude::ExcludeList;
use crate::reconcile::{ActionView, local_plan};
use crate::remote::{RemoteError, status_class};

verus! {

/// Name of the stash directory inside the metadata directory.
pub const STASH_DIR: &'static str = ".stash";

/// Where a local file at absolute path `p` is preserved, relative to the
/// metadata directory.
pub open spec fn stash_location(p: Seq<char>) -> Seq<char> {
    STASH_DIR@ + p
}

/// The stash place of the file at `p`.
pub fn stash_path(p: &str) -> (r: String)
    ensures
        r@ == stash_location(p@),
{
    let mut r = STASH_DIR.to_owned();
    r.append(p);
    r
}

/// What becomes of a local event that was queued while offline.
#[derive(Clone, Copy, Debug, PartialEq, Eq, Structural)]
pub enum Replay {
    /// Send it to the remote side now.
    Reapply,
    /// The remote side changed the path meanwhile and wins: keep the local
    /// file in the stash, then take the remote version.
    StashAndTakeRemote,
    /// The local file changed again since; a later event stands for it.
    Skip,
}

pub open spec fn replay_decision(remote_changed: bool, local_as_queued: bool) -> Replay {
    if remote_changed {
        Replay::StashAndTakeRemote
    } else if local_as_queued {
        Replay::Reapply
    } else {
        Replay::Skip
    }
}

/// Decides a queued event's fate from whether remote activity touched its
/// path meanwhile and whether the local file still is as when it was queued.
pub fn decide_replay(remote_changed: bool, local_as_queued: bool) -> (r: Replay)
    ensures
        r == replay_decision(remote_changed, local_as_queued),
{
    if remote_changed {
        Replay::StashAndTakeRemote
    } else if local_as_queued {
        Replay::Reapply
    } else {
        Replay::Skip
    }
}

/// A remote event that concerns path `p`.
pub open spec fn event_touches(ev: RemoteEvent, p: Seq<char>) -> bool {
    match ev {
        RemoteEvent::FileCreated { path, .. } => path@ == p,
        RemoteEvent::FileChanged { path, .. } => path@ == p,
        RemoteEvent::FileDeleted { path } => path@ == p,
        RemoteEvent::FileRenamed { from, to, .. } => from@ == p || to@ == p,
    }
}

pub open spec fn touched(remote: Seq<RemoteEvent>, p: Seq<char>) -> bool {
    exists|j: int| 0 <= j < remote.len() && event_touches(#[trigger] remote[j], p)
}

/// The remote side changed a path of a queued local event meanwhile.
pub open spec fn queued_conflict(ev: LocalEventKind, remote: Seq<RemoteEvent>) -> bool {
    match ev {
        LocalEventKind::Create(p) => touched(remote, p@),
        LocalEventKind::Modify(p) => touched(remote, p@),
        LocalEventKind::Remove(p) => touched(remote, p@),
        LocalEventKind::Rename(a, b) => touched(remote, a@) || touched(remote, b@),
    }
}

fn touches(ev: &RemoteEvent, p: &str) -> (r: bool)
    ensures
        r == event_touches(*ev, p@),
{
    match ev {
        RemoteEvent::FileCreated { path, .. } => str_eq(path.as_str(), p),
        RemoteEvent::FileChanged { path, .. } => str_eq(path.as_str(), p),
        RemoteEvent::FileDeleted { path } => str_eq(path.as_str(), p),
        RemoteEvent::FileRenamed { from, to, .. } => str_eq(from.as_str(), p) || str_eq(to.as_str(), p),
    }
}

/// Whether some event of the remote batch concerns `p`.
pub fn remote_touched(remote: &Vec<RemoteEvent>, p: &str) -> (r: bool)
    ensures
        r == touched(remote@, p@),
{
    let mut j: usize = 0;
    while j < remote.len()
        invariant
            j <= remote@.len(),
            forall|k: int| 0 <= k < j ==> !event_touches(#[trigger] remote@[k], p@),
        decreases remote@.len() - j,
    {
        if touches(&remote[j], p) {
            return true;
        }
        j = j + 1;
    }
    false
}

/// The soft repair's decision for each queued local event, given the remote
/// activities since the cursor and, for each event, whether the local file
/// is still as when the event was queued.
pub fn plan_soft_repair(queue: &Vec<LocalEvent>, remote: &Vec<RemoteEvent>, unchanged: &Vec<bool>) -> (r: Vec<Replay>)
    requires
        unchanged@.len() == queue@.len(),
    ensures
        r@.len() == queue@.len(),
        forall|i: int| 0 <= i < r@.len() ==> #[trigger] r@[i] == replay_decision(
            queued_conflict(queue@[i].kind, remote@),
            unchanged@[i],
        ),
{
    let mut r: Vec<Replay> = Vec::new();
    let mut i: usize = 0;
    while i < queue.len()
        invariant
            unchanged@.len() == queue@.len(),
            i <= queue@.len(),
            r@.len() == i,
            forall|k: int| 0 <= k < i ==> #[trigger] r@[k] == replay_decision(
                queued_conflict(queue@[k].kind, remote@),
                unchanged@[k],
            ),
        decreases queue@.len() - i,
    {
        let conflict = match &queue[i].kind {
            LocalEventKind::Create(p) => remote_touched(remote, p.as_str()),
            LocalEventKind::Modify(p) => remote_touched(remote, p.as_str()),
            LocalEventKind::Remove(p) => remote_touched(remote, p.as_str()),
            LocalEventKind::Rename(a, b) => remote_touched(remote, a.as_str()) || remote_touched(remote, b.as_str()),
        };
        r.push(decide_replay(conflict, unchanged[i]));
        i = i + 1;
    }
    r
}

/// What to do with the local copy when a remote version replaces it.
#[derive(Clone, Copy, Debug, PartialEq, Eq, Structural)]
pub enum Overwrite {
    /// Keep the local copy in the stash first.
    StashFirst,
    /// Overwrite it.
    Overwrite,
}

/// During a pull the remote side is authoritative; the local copy of a
/// file is kept when the local side changed it too and the pull asked for
/// a stash.
pub fn resolve_conflict(local_changed: bool, stash_requested: bool) -> (r: Overwrite)
    ensures
        r == (if local_changed && stash_requested { Overwrite::StashFirst } else { Overwrite::Overwrite }),
{
    if local_changed && stash_requested {
        Overwrite::StashFirst
    } else {
        Overwrite::Overwrite
    }
}

pub open spec fn conflict_choice(local_changed: bool) -> Overwrite {
    if local_changed {
        Overwrite::StashFirst
    } else {
        Overwrite::Overwrite
    }
}

/// When the remote version of a file replaces the local one outside a pull
/// (a remote change applied over a local edit, or a push that the server
/// refused), the remote side wins and a locally changed copy is always kept
/// in the stash first.
pub fn conflict_outcome(local_changed: bool) -> (r: Overwrite)
    ensures
        r == conflict_choice(local_changed),
{
    if local_changed {
        Overwrite::StashFirst
    } else {
        Overwrite::Overwrite
    }
}

/// What follows a push of a local change that the remote side refused.
#[derive(Clone, Copy, Debug, PartialEq, Eq, Structural)]
pub enum PutRecovery {
    /// The server holds another version: keep the local file in the stash
    /// and take the remote version.
    StashAndTakeRemote,
    /// The network or the server failed: queue the event again.
    Requeue,
    /// The path is gone remotely: drop it from the tree and go on.
    ForgetPath,
    /// The credentials were refused: stop with an error.
    Fail,
}

pub open spec fn put_recovery(e: RemoteError) -> PutRecovery {
    match e {
        RemoteError::Conflict => PutRecovery::StashAndTakeRemote,
        RemoteError::Transport => PutRecovery::Requeue,
        RemoteError::Server => PutRecovery::Requeue,
        RemoteError::NotFound => PutRecovery::ForgetPath,
        RemoteError::Unauthorized => PutRecovery::Fail,
    }
}

/// Decides what follows a refused push.
pub fn recover_failed_put(e: RemoteError) -> (r: PutRecovery)
    ensures
        r == put_recovery(e),
{
    match e {
        RemoteError::Conflict => PutRecovery::StashAndTakeRemote,
        RemoteError::Transport => PutRecovery::Requeue,
        RemoteError::Server => PutRecovery::Requeue,
        RemoteError::NotFound => PutRecovery::ForgetPath,
        RemoteError::Unauthorized => PutRecovery::Fail,
    }
}

/// Remote wins a conflict: after the remote version of `p` has been written
/// locally (its token expects `written`), a local edit with other content is
/// pushed; the server refuses that push as a conflict (409 or 412), so the
/// local copy goes to the stash and the remote version stays.
pub proof fn law_conflict_remote_wins(
    nc2l: Map<Seq<char>, TokenView>,
    p: String,
    written: Seq<char>,
    edited: Seq<char>,
    deadline: u64,
    now: u64,
    excl: ExcludeList,
)
    requires
        edited != written,
        !excl.excludes(p@),
    ensures
        local_plan(
            LocalEventKind::Modify(p),
            Some(edited),
            false,
            nc2l.insert(p@, TokenView { state: Some(written), deadline }),
            excl,
            now,
        ) == ActionView::Put(p@),
        status_class(409) == Some(RemoteError::Conflict),
        status_class(412) == Some(RemoteError::Conflict),
        put_recovery(RemoteError::Conflict) == PutRecovery::StashAndTakeRemote,
        conflict_choice(true) == Overwrite::StashFirst,
{
}

} // verus!
