//! The reconciler's decisions. For each event it decides, from the event,
//! what the watcher observed, the suppressions and the exclude list, which
//! mutation the other side needs; once the caller has carried that mutation
//! out, a commit step records its outcome in the tree and in the registry.
//!
//! Times are plain numbers on the caller's clock: a decision takes the time
//! `now`, and a commit gives the tokens it records a `deadline`.

use vstd::prelude::*;
use crate::cancel::{CancelRegistry, TokenView, expect_view, token_matches};
use crate::events::{LocalEvent, LocalEventKind, RemoteEvent};
use crate::exclude::ExcludeList;
use crate::tree::{EntryKind, EntryView, Tree, TreeError, insert_check, moved, rename_check, upsert_check};

verus! {

/// A mutation of the remote side, or why there is none.
#[derive(Debug)]
pub enum LocalAction {
    /// The event reports a change that this client made itself.
    Echo,
    /// The path is excluded from synchronisation.
    Excluded,
    /// Nothing is left to send (the file is gone again, or a directory only
    /// changed its times).
    Nothing,
    PutFile(String),
    MakeRemoteDir(String),
    RemoveRemote(String),
    MoveRemote(String, String),
}

/// A mutation of the local side, or why there is none.
#[derive(Debug)]
pub enum RemoteAction {
    Echo,
    Excluded,
    Download(String),
    MakeLocalDir(String),
    RemoveLocal(String),
    MoveLocal(String, String),
}

pub enum ActionView {
    Echo,
    Excluded,
    Nothing,
    Put(Seq<char>),
    MakeDir(Seq<char>),
    Remove(Seq<char>),
    Move(Seq<char>, Seq<char>),
}

impl LocalAction {
    pub open spec fn view(&self) -> ActionView {
        match self {
            LocalAction::Echo => ActionView::Echo,
            LocalAction::Excluded => ActionView::Excluded,
            LocalAction::Nothing => ActionView::Nothing,
            LocalAction::PutFile(p) => ActionView::Put(p@),
            LocalAction::MakeRemoteDir(p) => ActionView::MakeDir(p@),
            LocalAction::RemoveRemote(p) => ActionView::Remove(p@),
            LocalAction::MoveRemote(a, b) => ActionView::Move(a@, b@),
        }
    }
}

impl RemoteAction {
    pub open spec fn view(&self) -> ActionView {
        match self {
            RemoteAction::Echo => ActionView::Echo,
            RemoteAction::Excluded => ActionView::Excluded,
            RemoteAction::Download(p) => ActionView::Put(p@),
            RemoteAction::MakeLocalDir(p) => ActionView::MakeDir(p@),
            RemoteAction::RemoveLocal(p) => ActionView::Remove(p@),
            RemoteAction::MoveLocal(a, b) => ActionView::Move(a@, b@),
        }
    }
}

/// A live token of the registry expects exactly the observed state at `p`.
pub open spec fn is_echo(m: Map<Seq<char>, TokenView>, p: Seq<char>, observed: Option<Seq<char>>, now: u64) -> bool {
    token_matches(m, p, observed, now)
}

/// What to do about a new or changed local path that is not excluded.
pub open spec fn local_upload(p: Seq<char>, observed: Option<Seq<char>>, is_dir: bool, created: bool) -> ActionView {
    if observed is None {
        ActionView::Nothing
    } else if is_dir {
        if created { ActionView::MakeDir(p) } else { ActionView::Nothing }
    } else {
        ActionView::Put(p)
    }
}

/// The decision for a local event. `observed` is the content key of what
/// now stands at the event's (new) path, `None` when nothing does.
pub open spec fn local_plan(
    ev: LocalEventKind,
    observed: Option<Seq<char>>,
    is_dir: bool,
    nc2l: Map<Seq<char>, TokenView>,
    excl: ExcludeList,
    now: u64,
) -> ActionView {
    match ev {
        LocalEventKind::Create(p) => if is_echo(nc2l, p@, observed, now) {
            ActionView::Echo
        } else if excl.excludes(p@) {
            ActionView::Excluded
        } else {
            local_upload(p@, observed, is_dir, true)
        },
        LocalEventKind::Modify(p) => if is_echo(nc2l, p@, observed, now) {
            ActionView::Echo
        } else if excl.excludes(p@) {
            ActionView::Excluded
        } else {
            local_upload(p@, observed, is_dir, false)
        },
        LocalEventKind::Remove(p) => if is_echo(nc2l, p@, observed, now) {
            ActionView::Echo
        } else if excl.excludes(p@) {
            ActionView::Excluded
        } else {
            ActionView::Remove(p@)
        },
        LocalEventKind::Rename(a, b) => if is_echo(nc2l, a@, None, now) && is_echo(nc2l.remove(a@), b@, observed, now) {
            ActionView::Echo
        } else if excl.excludes(a@) && excl.excludes(b@) {
            ActionView::Excluded
        } else if excl.excludes(a@) {
            local_upload(b@, observed, is_dir, true)
        } else if excl.excludes(b@) {
            ActionView::Remove(a@)
        } else {
            ActionView::Move(a@, b@)
        },
    }
}

/// The paths whose local suppressions an event consumes.
pub open spec fn local_consumed(
    ev: LocalEventKind,
    nc2l: Map<Seq<char>, TokenView>,
) -> Map<Seq<char>, TokenView> {
    match ev {
        LocalEventKind::Create(p) => nc2l.remove(p@),
        LocalEventKind::Modify(p) => nc2l.remove(p@),
        LocalEventKind::Remove(p) => nc2l.remove(p@),
        LocalEventKind::Rename(a, b) => nc2l.remove(a@).remove(b@),
    }
}

fn upload(p: &String, observed: &Option<String>, is_dir: bool, created: bool) -> (r: LocalAction)
    ensures
        r@ == local_upload(p@, expect_view(*observed), is_dir, created),
{
    if observed.is_none() {
        LocalAction::Nothing
    } else if is_dir {
        if created {
            LocalAction::MakeRemoteDir(p.clone())
        } else {
            LocalAction::Nothing
        }
    } else {
        LocalAction::PutFile(p.clone())
    }
}

/// Decides what a local event asks of the remote side, consuming the
/// suppressions of the paths it touches.
pub fn plan_local_event(
    ev: &LocalEvent,
    observed: &Option<String>,
    is_dir: bool,
    reg: &mut CancelRegistry,
    excl: &ExcludeList,
    now: u64,
) -> (r: LocalAction)
    requires
        old(reg).wf(),
    ensures
        final(reg).wf(),
        r@ == local_plan(ev.kind, expect_view(*observed), is_dir, old(reg).nc2l@, *excl, now),
        final(reg).nc2l@ == local_consumed(ev.kind, old(reg).nc2l@),
        final(reg).l2nc@ == old(reg).l2nc@,
{
    match &ev.kind {
        LocalEventKind::Create(p) => {
            if reg.nc2l.take_if_matches(p.as_str(), observed, now) {
                LocalAction::Echo
            } else if excl.is_excluded(p.as_str()) {
                LocalAction::Excluded
            } else {
                upload(p, observed, is_dir, true)
            }
        },
        LocalEventKind::Modify(p) => {
            if reg.nc2l.take_if_matches(p.as_str(), observed, now) {
                LocalAction::Echo
            } else if excl.is_excluded(p.as_str()) {
                LocalAction::Excluded
            } else {
                upload(p, observed, is_dir, false)
            }
        },
        LocalEventKind::Remove(p) => {
            if reg.nc2l.take_if_matches(p.as_str(), observed, now) {
                LocalAction::Echo
            } else if excl.is_excluded(p.as_str()) {
                LocalAction::Excluded
            } else {
                LocalAction::RemoveRemote(p.clone())
            }
        },
        LocalEventKind::Rename(a, b) => {
            let gone_a = reg.nc2l.take_if_matches(a.as_str(), &None, now);
            let here_b = reg.nc2l.take_if_matches(b.as_str(), observed, now);
            if gone_a && here_b {
                return LocalAction::Echo;
            }
            let ex_a = excl.is_excluded(a.as_str());
            let ex_b = excl.is_excluded(b.as_str());
            if ex_a && ex_b {
                LocalAction::Excluded
            } else if ex_a {
                upload(b, observed, is_dir, true)
            } else if ex_b {
                LocalAction::RemoveRemote(a.clone())
            } else {
                LocalAction::MoveRemote(a.clone(), b.clone())
            }
        },
    }
}

/// The decision for a remote event.
pub open spec fn remote_plan(ev: RemoteEvent, l2nc: Map<Seq<char>, TokenView>, excl: ExcludeList, now: u64) -> ActionView {
    match ev {
        RemoteEvent::FileCreated { path, etag, size, is_dir } => if is_echo(l2nc, path@, Some(etag@), now) {
            ActionView::Echo
        } else if excl.excludes(path@) {
            ActionView::Excluded
        } else if is_dir {
            ActionView::MakeDir(path@)
        } else {
            ActionView::Put(path@)
        },
        RemoteEvent::FileChanged { path, etag, size } => if is_echo(l2nc, path@, Some(etag@), now) {
            ActionView::Echo
        } else if excl.excludes(path@) {
            ActionView::Excluded
        } else {
            ActionView::Put(path@)
        },
        RemoteEvent::FileDeleted { path } => if is_echo(l2nc, path@, None, now) {
            ActionView::Echo
        } else if excl.excludes(path@) {
            ActionView::Excluded
        } else {
            ActionView::Remove(path@)
        },
        RemoteEvent::FileRenamed { from, to, etag } => if is_echo(l2nc, from@, None, now) && is_echo(
            l2nc.remove(from@),
            to@,
            Some(etag@),
            now,
        ) {
            ActionView::Echo
        } else if excl.excludes(from@) && excl.excludes(to@) {
            ActionView::Excluded
        } else if excl.excludes(from@) {
            ActionView::Put(to@)
        } else if excl.excludes(to@) {
            ActionView::Remove(from@)
        } else {
            ActionView::Move(from@, to@)
        },
    }
}

pub open spec fn remote_consumed(ev: RemoteEvent, l2nc: Map<Seq<char>, TokenView>) -> Map<Seq<char>, TokenView> {
    match ev {
        RemoteEvent::FileCreated { path, .. } => l2nc.remove(path@),
        RemoteEvent::FileChanged { path, .. } => l2nc.remove(path@),
        RemoteEvent::FileDeleted { path } => l2nc.remove(path@),
        RemoteEvent::FileRenamed { from, to, .. } => l2nc.remove(from@).remove(to@),
    }
}

/// Decides what a remote event asks of the local side, consuming the
/// suppressions of the paths it touches.
pub fn plan_remote_event(ev: &RemoteEvent, reg: &mut CancelRegistry, excl: &ExcludeList, now: u64) -> (r: RemoteAction)
    requires
        old(reg).wf(),
    ensures
        final(reg).wf(),
        r@ == remote_plan(*ev, old(reg).l2nc@, *excl, now),
        final(reg).l2nc@ == remote_consumed(*ev, old(reg).l2nc@),
        final(reg).nc2l@ == old(reg).nc2l@,
{
    match ev {
        RemoteEvent::FileCreated { path, etag, size, is_dir } => {
            if reg.l2nc.take_if_matches(path.as_str(), &Some(etag.clone()), now) {
                RemoteAction::Echo
            } else if excl.is_excluded(path.as_str()) {
                RemoteAction::Excluded
            } else if *is_dir {
                RemoteAction::MakeLocalDir(path.clone())
            } else {
                RemoteAction::Download(path.clone())
            }
        },
        RemoteEvent::FileChanged { path, etag, size } => {
            if reg.l2nc.take_if_matches(path.as_str(), &Some(etag.clone()), now) {
                RemoteAction::Echo
            } else if excl.is_excluded(path.as_str()) {
                RemoteAction::Excluded
            } else {
                RemoteAction::Download(path.clone())
            }
        },
        RemoteEvent::FileDeleted { path } => {
            if reg.l2nc.take_if_matches(path.as_str(), &None, now) {
                RemoteAction::Echo
            } else if excl.is_excluded(path.as_str()) {
                RemoteAction::Excluded
            } else {
                RemoteAction::RemoveLocal(path.clone())
            }
        },
        RemoteEvent::FileRenamed { from, to, etag } => {
            let gone = reg.l2nc.take_if_matches(from.as_str(), &None, now);
            let here = reg.l2nc.take_if_matches(to.as_str(), &Some(etag.clone()), now);
            if gone && here {
                return RemoteAction::Echo;
            }
            let ex_a = excl.is_excluded(from.as_str());
            let ex_b = excl.is_excluded(to.as_str());
            if ex_a && ex_b {
                RemoteAction::Excluded
            } else if ex_a {
                RemoteAction::Download(to.clone())
            } else if ex_b {
                RemoteAction::RemoveLocal(from.clone())
            } else {
                RemoteAction::MoveLocal(from.clone(), to.clone())
            }
        },
    }
}

/// The decisions for a batch of remote events, taken in the server's order,
/// each with the suppressions that the events before it left.
pub open spec fn batch_plan(evs: Seq<RemoteEvent>, l2nc: Map<Seq<char>, TokenView>, excl: ExcludeList, now: u64) -> Seq<
    ActionView,
>
    decreases evs.len(),
{
    if evs.len() == 0 {
        seq![]
    } else {
        seq![remote_plan(evs[0], l2nc, excl, now)] + batch_plan(evs.drop_first(), remote_consumed(evs[0], l2nc), excl, now)
    }
}

/// The suppressions left after a batch.
pub open spec fn batch_consumed(evs: Seq<RemoteEvent>, l2nc: Map<Seq<char>, TokenView>) -> Map<Seq<char>, TokenView>
    decreases evs.len(),
{
    if evs.len() == 0 {
        l2nc
    } else {
        batch_consumed(evs.drop_first(), remote_consumed(evs[0], l2nc))
    }
}

/// Decides, in order, what each event of a remote batch asks of the local
/// side. Committing a remote event's outcome touches only the local-side
/// suppressions, so the whole batch can be decided before it is applied.
pub fn plan_remote_batch(batch: &Vec<RemoteEvent>, reg: &mut CancelRegistry, excl: &ExcludeList, now: u64) -> (r: Vec<
    RemoteAction,
>)
    requires
        old(reg).wf(),
    ensures
        final(reg).wf(),
        r@.map_values(|a: RemoteAction| a@) == batch_plan(batch@, old(reg).l2nc@, *excl, now),
        final(reg).l2nc@ == batch_consumed(batch@, old(reg).l2nc@),
        final(reg).nc2l@ == old(reg).nc2l@,
{
    let ghost start = reg.l2nc@;
    let mut r: Vec<RemoteAction> = Vec::new();
    let mut i: usize = 0;
    proof {
        assert(batch@.skip(0) =~= batch@);
        assert(r@.map_values(|a: RemoteAction| a@) + batch_plan(batch@, start, *excl, now) =~= batch_plan(batch@, start, *excl, now));
    }
    while i < batch.len()
        invariant
            reg.wf(),
            i <= batch@.len(),
            reg.nc2l@ == old(reg).nc2l@,
            start == old(reg).l2nc@,
            batch_plan(batch@, start, *excl, now) == r@.map_values(|a: RemoteAction| a@) + batch_plan(
                batch@.skip(i as int),
                reg.l2nc@,
                *excl,
                now,
            ),
            batch_consumed(batch@, start) == batch_consumed(batch@.skip(i as int), reg.l2nc@),
        decreases batch@.len() - i,
    {
        let ghost before = reg.l2nc@;
        let ghost rest = batch@.skip(i as int);
        let ghost prev = r@.map_values(|a: RemoteAction| a@);
        let a = plan_remote_event(&batch[i], reg, excl, now);
        r.push(a);
        proof {
            assert(rest[0] == batch@[i as int]);
            assert(rest.drop_first() =~= batch@.skip(i + 1));
            assert(r@.map_values(|a: RemoteAction| a@) =~= prev.push(a@));
            assert(prev + batch_plan(rest, before, *excl, now) =~= prev.push(a@) + batch_plan(
                rest.drop_first(),
                reg.l2nc@,
                *excl,
                now,
            ));
        }
        i = i + 1;
    }
    proof {
        assert(batch@.skip(i as int) =~= Seq::<RemoteEvent>::empty());
        assert(r@.map_values(|a: RemoteAction| a@) + Seq::<ActionView>::empty() =~= r@.map_values(|a: RemoteAction| a@));
    }
    r
}

/// Records a file pushed to the remote side, which answered with `etag`;
/// the activity that the push causes will be recognised as an echo.
pub fn commit_upload(tree: &mut Tree, reg: &mut CancelRegistry, path: String, etag: String, size: Option<u64>, deadline: u64) -> (r:
    Result<(), TreeError>)
    requires
        old(tree).wf(),
        old(reg).wf(),
    ensures
        r matches Err(e) ==> upsert_check(old(tree)@, path@) == Some(e),
        r is Ok ==> upsert_check(old(tree)@, path@) is None,
        final(tree).wf(),
        final(reg).wf(),
        final(reg).nc2l@ == old(reg).nc2l@,
        r is Ok ==> final(tree)@ == old(tree)@.insert(
            path@,
            EntryView { kind: EntryKind::File, etag: Some(etag@), size },
        ),
        r is Ok ==> final(reg).l2nc@ == old(reg).l2nc@.insert(path@, TokenView { state: Some(etag@), deadline }),
        r is Err ==> final(tree).entries@ == old(tree).entries@ && final(reg).l2nc@ == old(reg).l2nc@,
{
    let key = path.clone();
    let tag = etag.clone();
    let res = tree.upsert_file(path, Some(etag), size);
    if res.is_ok() {
        reg.l2nc.record(key, Some(tag), deadline);
    }
    res
}

/// Records a directory made on the remote side.
pub fn commit_remote_dir(tree: &mut Tree, reg: &mut CancelRegistry, path: String, etag: String, deadline: u64) -> (r: Result<(), TreeError>)
    requires
        old(tree).wf(),
        old(reg).wf(),
    ensures
        r matches Err(e) ==> insert_check(old(tree)@, path@) == Some(e),
        r is Ok ==> insert_check(old(tree)@, path@) is None,
        final(tree).wf(),
        final(reg).wf(),
        final(reg).nc2l@ == old(reg).nc2l@,
        r is Ok ==> final(tree)@ == old(tree)@.insert(
            path@,
            EntryView { kind: EntryKind::Directory, etag: Some(etag@), size: None },
        ),
        r is Ok ==> final(reg).l2nc@ == old(reg).l2nc@.insert(path@, TokenView { state: Some(etag@), deadline }),
        r is Err ==> final(tree).entries@ == old(tree).entries@ && final(reg).l2nc@ == old(reg).l2nc@,
{
    let key = path.clone();
    let tag = etag.clone();
    let res = tree.insert(path, EntryKind::Directory, Some(etag), None);
    if res.is_ok() {
        reg.l2nc.record(key, Some(tag), deadline);
    }
    res
}

/// Records a path removed on the remote side; true when the tree held it.
pub fn commit_remote_removal(tree: &mut Tree, reg: &mut CancelRegistry, path: String, deadline: u64) -> (r: bool)
    requires
        old(tree).wf(),
        old(reg).wf(),
    ensures
        final(tree).wf(),
        final(reg).wf(),
        final(reg).nc2l@ == old(reg).nc2l@,
        r == (path@ != crate::paths::root_path() && old(tree)@.contains_key(path@)),
        r ==> final(tree)@ == Map::new(
            |q: Seq<char>| old(tree)@.contains_key(q) && !crate::paths::in_subtree(q, path@),
            |q: Seq<char>| old(tree)@[q],
        ),
        !r ==> final(tree).entries@ == old(tree).entries@,
        final(reg).l2nc@ == old(reg).l2nc@.insert(path@, TokenView { state: None, deadline }),
{
    let removed = tree.remove(path.as_str()).is_some();
    reg.l2nc.record(path, None, deadline);
    removed
}

/// Records a move made on the remote side; the moved entry then has `etag`.
pub fn commit_remote_move(tree: &mut Tree, reg: &mut CancelRegistry, from: String, to: String, etag: String, deadline: u64) -> (r: Result<
    (),
    TreeError,
>)
    requires
        old(tree).wf(),
        old(reg).wf(),
    ensures
        final(tree).wf(),
        final(reg).wf(),
        final(reg).nc2l@ == old(reg).nc2l@,
        r matches Err(e) ==> rename_check(old(tree)@, from@, to@) == Some(e),
        r is Ok ==> rename_check(old(tree)@, from@, to@) is None,
        r is Ok ==> final(tree)@ == moved(old(tree)@, from@, to@).insert(
            to@,
            EntryView { etag: Some(etag@), ..moved(old(tree)@, from@, to@)[to@] },
        ),
        r is Ok ==> final(reg).l2nc@ == old(reg).l2nc@.insert(from@, TokenView { state: None, deadline }).insert(
            to@,
            TokenView { state: Some(etag@), deadline },
        ),
        r is Err ==> final(tree).entries@ == old(tree).entries@ && final(reg).l2nc@ == old(reg).l2nc@,
{
    let res = tree.rename(from.as_str(), to.as_str());
    if res.is_err() {
        return res;
    }
    refresh_etag(tree, to.as_str(), etag.clone());
    reg.l2nc.record(from, None, deadline);
    reg.l2nc.record(to, Some(etag), deadline);
    Ok(())
}

/// Replaces the etag of an entry that is known to be in the tree.
fn refresh_etag(tree: &mut Tree, p: &str, etag: String)
    requires
        old(tree).wf(),
        old(tree)@.contains_key(p@),
    ensures
        final(tree).wf(),
        final(tree)@ == old(tree)@.insert(p@, EntryView { etag: Some(etag@), ..old(tree)@[p@] }),
{
    let size = match tree.get(p) {
        Some(e) => e.size,
        None => None,
    };
    let res = tree.set_meta(p, Some(etag), size);
    assert(res is Ok);
}

/// Records a file written locally from the remote version `etag`; `local_key`
/// identifies the written content, so that the watcher's report of the write
/// is recognised as an echo.
pub fn commit_download(
    tree: &mut Tree,
    reg: &mut CancelRegistry,
    path: String,
    etag: String,
    size: Option<u64>,
    local_key: String,
    deadline: u64,
) -> (r: Result<(), TreeError>)
    requires
        old(tree).wf(),
        old(reg).wf(),
    ensures
        r matches Err(e) ==> upsert_check(old(tree)@, path@) == Some(e),
        r is Ok ==> upsert_check(old(tree)@, path@) is None,
        final(tree).wf(),
        final(reg).wf(),
        final(reg).l2nc@ == old(reg).l2nc@,
        r is Ok ==> final(tree)@ == old(tree)@.insert(
            path@,
            EntryView { kind: EntryKind::File, etag: Some(etag@), size },
        ),
        r is Ok ==> final(reg).nc2l@ == old(reg).nc2l@.insert(path@, TokenView { state: Some(local_key@), deadline }),
        r is Err ==> final(tree).entries@ == old(tree).entries@ && final(reg).nc2l@ == old(reg).nc2l@,
{
    let key = path.clone();
    let res = tree.upsert_file(path, Some(etag), size);
    if res.is_ok() {
        reg.nc2l.record(key, Some(local_key), deadline);
    }
    res
}

/// Records a directory made locally for a remote one.
pub fn commit_local_dir(tree: &mut Tree, reg: &mut CancelRegistry, path: String, etag: String, local_key: String, deadline: u64) -> (r:
    Result<(), TreeError>)
    requires
        old(tree).wf(),
        old(reg).wf(),
    ensures
        r matches Err(e) ==> insert_check(old(tree)@, path@) == Some(e),
        r is Ok ==> insert_check(old(tree)@, path@) is None,
        final(tree).wf(),
        final(reg).wf(),
        final(reg).l2nc@ == old(reg).l2nc@,
        r is Ok ==> final(tree)@ == old(tree)@.insert(
            path@,
            EntryView { kind: EntryKind::Directory, etag: Some(etag@), size: None },
        ),
        r is Ok ==> final(reg).nc2l@ == old(reg).nc2l@.insert(path@, TokenView { state: Some(local_key@), deadline }),
        r is Err ==> final(tree).entries@ == old(tree).entries@ && final(reg).nc2l@ == old(reg).nc2l@,
{
    let key = path.clone();
    let res = tree.insert(path, EntryKind::Directory, Some(etag), None);
    if res.is_ok() {
        reg.nc2l.record(key, Some(local_key), deadline);
    }
    res
}

/// Records a path removed locally after the remote side removed it.
pub fn commit_local_removal(tree: &mut Tree, reg: &mut CancelRegistry, path: String, deadline: u64) -> (r: bool)
    requires
        old(tree).wf(),
        old(reg).wf(),
    ensures
        final(tree).wf(),
        final(reg).wf(),
        final(reg).l2nc@ == old(reg).l2nc@,
        r == (path@ != crate::paths::root_path() && old(tree)@.contains_key(path@)),
        r ==> final(tree)@ == Map::new(
            |q: Seq<char>| old(tree)@.contains_key(q) && !crate::paths::in_subtree(q, path@),
            |q: Seq<char>| old(tree)@[q],
        ),
        !r ==> final(tree).entries@ == old(tree).entries@,
        final(reg).nc2l@ == old(reg).nc2l@.insert(path@, TokenView { state: None, deadline }),
{
    let removed = tree.remove(path.as_str()).is_some();
    reg.nc2l.record(path, None, deadline);
    removed
}

/// Records a local move that followed a remote one; `local_key` identifies
/// what now stands at `to`.
pub fn commit_local_move(
    tree: &mut Tree,
    reg: &mut CancelRegistry,
    from: String,
    to: String,
    etag: String,
    local_key: String,
    deadline: u64,
) -> (r: Result<(), TreeError>)
    requires
        old(tree).wf(),
        old(reg).wf(),
    ensures
        final(tree).wf(),
        final(reg).wf(),
        final(reg).l2nc@ == old(reg).l2nc@,
        r matches Err(e) ==> rename_check(old(tree)@, from@, to@) == Some(e),
        r is Ok ==> rename_check(old(tree)@, from@, to@) is None,
        r is Ok ==> final(tree)@ == moved(old(tree)@, from@, to@).insert(
            to@,
            EntryView { etag: Some(etag@), ..moved(old(tree)@, from@, to@)[to@] },
        ),
        r is Ok ==> final(reg).nc2l@ == old(reg).nc2l@.insert(from@, TokenView { state: None, deadline }).insert(
            to@,
            TokenView { state: Some(local_key@), deadline },
        ),
        r is Err ==> final(tree).entries@ == old(tree).entries@ && final(reg).nc2l@ == old(reg).nc2l@,
{
    let res = tree.rename(from.as_str(), to.as_str());
    if res.is_err() {
        return res;
    }
    refresh_etag(tree, to.as_str(), etag);
    reg.nc2l.record(from, None, deadline);
    reg.nc2l.record(to, Some(local_key), deadline);
    Ok(())
}

/// An action that changes neither side.
pub open spec fn no_side_effect(a: ActionView) -> bool {
    a is Echo || a is Excluded
}

/// After a download of `p`, the watcher's report of that write (a creation
/// or a change showing the written content) that comes before the token's
/// deadline is dropped as an echo, so neither the tree nor the remote side
/// is touched again.
pub proof fn law_download_echo_dropped(
    nc2l: Map<Seq<char>, TokenView>,
    p: String,
    key: String,
    deadline: u64,
    now: u64,
    is_dir: bool,
    excl: ExcludeList,
)
    requires
        now <= deadline,
    ensures
        local_plan(
            LocalEventKind::Modify(p),
            Some(key@),
            is_dir,
            nc2l.insert(p@, TokenView { state: Some(key@), deadline }),
            excl,
            now,
        ) == ActionView::Echo,
        local_plan(
            LocalEventKind::Create(p),
            Some(key@),
            is_dir,
            nc2l.insert(p@, TokenView { state: Some(key@), deadline }),
            excl,
            now,
        ) == ActionView::Echo,
{
}

/// After a push of `p` that the server answered with `etag`, the activity
/// that reports it before the token's deadline is dropped as an echo.
pub proof fn law_upload_echo_dropped(
    l2nc: Map<Seq<char>, TokenView>,
    p: String,
    etag: String,
    size: Option<u64>,
    is_dir: bool,
    deadline: u64,
    now: u64,
    excl: ExcludeList,
)
    requires
        now <= deadline,
    ensures
        remote_plan(
            RemoteEvent::FileChanged { path: p, etag, size },
            l2nc.insert(p@, TokenView { state: Some(etag@), deadline }),
            excl,
            now,
        ) == ActionView::Echo,
        remote_plan(
            RemoteEvent::FileCreated { path: p, etag, size, is_dir },
            l2nc.insert(p@, TokenView { state: Some(etag@), deadline }),
            excl,
            now,
        ) == ActionView::Echo,
{
}

/// A local event on excluded paths changes nothing on the remote side.
pub proof fn law_local_exclusion(
    ev: LocalEventKind,
    observed: Option<Seq<char>>,
    is_dir: bool,
    nc2l: Map<Seq<char>, TokenView>,
    excl: ExcludeList,
    now: u64,
)
    requires
        match ev {
            LocalEventKind::Create(p) => excl.excludes(p@),
            LocalEventKind::Modify(p) => excl.excludes(p@),
            LocalEventKind::Remove(p) => excl.excludes(p@),
            LocalEventKind::Rename(a, b) => excl.excludes(a@) && excl.excludes(b@),
        },
    ensures
        no_side_effect(local_plan(ev, observed, is_dir, nc2l, excl, now)),
{
}

/// A remote event on excluded paths changes nothing on the local side.
pub proof fn law_remote_exclusion(ev: RemoteEvent, l2nc: Map<Seq<char>, TokenView>, excl: ExcludeList, now: u64)
    requires
        match ev {
            RemoteEvent::FileCreated { path, .. } => excl.excludes(path@),
            RemoteEvent::FileChanged { path, .. } => excl.excludes(path@),
            RemoteEvent::FileDeleted { path } => excl.excludes(path@),
            RemoteEvent::FileRenamed { from, to, .. } => excl.excludes(from@) && excl.excludes(to@),
        },
    ensures
        no_side_effect(remote_plan(ev, l2nc, excl, now)),
{
}

/// Downloading the same version of a file twice leaves the tree and the
/// suppressions as one download does.
pub proof fn law_download_idempotent(
    tree: Map<Seq<char>, EntryView>,
    nc2l: Map<Seq<char>, TokenView>,
    p: Seq<char>,
    v: EntryView,
    key: TokenView,
)
    ensures
        tree.insert(p, v).insert(p, v) == tree.insert(p, v),
        nc2l.insert(p, key).insert(p, key) == nc2l.insert(p, key),
{
    assert(tree.insert(p, v).insert(p, v) =~= tree.insert(p, v));
    assert(nc2l.insert(p, key).insert(p, key) =~= nc2l.insert(p, key));
}

} // verus!
