//! The control loop's decisions. The loop receives one command at a time;
//! for each, the controller updates its state (network status, queue of
//! local events seen while offline, remote cursor, suppressions) and tells
//! the caller what to carry out.

use vstd::prelude::*;
use crate::activity::{NCState, id_eq_or_newer};
use crate::cancel::CancelRegistry;
use crate::events::{LocalEvent, RemoteEvent};

verus! {

#[derive(Clone, Copy, Debug, PartialEq, Eq, Structural)]
pub enum NetworkStatus {
    Connect,
    Disconnect,
}

/// What reaches the control loop.
#[derive(Debug)]
pub enum Command {
    LocEvent(LocalEvent),
    /// A batch of remote activities and the cursor after them.
    NCEvents(Vec<RemoteEvent>, NCState),
    PullEvent { target: String, is_recursive: bool, stash: bool },
    UpdateExcFile,
    UpdateConfigFile,
    HardRepair,
    NormalRepair,
    NetworkConnect,
    NetworkDisconnect,
    /// Stop; restart when true.
    Terminate(bool),
    Error(String),
}

/// What the caller is to do next.
#[derive(Debug)]
pub enum Step {
    /// Reconcile a local event against the remote side.
    Reconcile(LocalEvent),
    /// The local event was queued until the network is back.
    Queued,
    /// Apply a remote batch locally, then report the outcome with
    /// `finish_remote_batch`, which moves the cursor to the batch's end when
    /// the batch completed.
    ApplyRemote(Vec<RemoteEvent>, NCState),
    /// The batch is not newer than the cursor and is skipped.
    StaleBatch,
    /// A remote batch arrived while offline; it is dropped and reported.
    Unexpected,
    /// Refresh a local subtree from the remote side.
    Pull { target: String, is_recursive: bool, stash: bool },
    /// A pull was asked for while offline; it is refused.
    PullRefused,
    /// Replay the queued local events against the remote state, then report
    /// the outcome with `finish_soft_repair`.
    SoftRepair(Vec<LocalEvent>),
    /// Catch up with the remote activities, then stop and restart.
    NormalRepair,
    /// Delete the snapshot and the local contents, then restart.
    HardRepair,
    /// Nothing to do.
    Idle,
    /// Save the snapshot and stop, restarting when `restart` holds.
    Exit { restart: bool },
    /// Save the snapshot and stop with an error.
    Fail(String),
}

/// A remote batch that ends at `new` is applied over cursor `cur` exactly
/// when it is strictly newer.
pub open spec fn advances(cur: Seq<char>, new: Seq<char>) -> bool {
    id_eq_or_newer(new, cur) && !id_eq_or_newer(cur, new)
}

pub struct Controller {
    pub network: NetworkStatus,
    pub offline_queue: Vec<LocalEvent>,
    pub nc_state: NCState,
    pub cancel: CancelRegistry,
}

impl Controller {
    pub open spec fn wf(&self) -> bool {
        self.cancel.wf()
    }

    /// Everything but the network status and the queue is as in `o`.
    pub open spec fn keeps_sync_state(&self, o: &Controller) -> bool {
        &&& self.nc_state.latest_activity_id@ == o.nc_state.latest_activity_id@
        &&& self.cancel.nc2l@ == o.cancel.nc2l@
        &&& self.cancel.l2nc@ == o.cancel.l2nc@
    }

    pub open spec fn unchanged(&self, o: &Controller) -> bool {
        &&& self.keeps_sync_state(o)
        &&& self.network == o.network
        &&& self.offline_queue@ == o.offline_queue@
    }

    pub fn new(nc_state: NCState, network: NetworkStatus) -> (r: Controller)
        ensures
            r.wf(),
            r.network == network,
            r.offline_queue@.len() == 0,
            r.nc_state == nc_state,
            r.cancel.nc2l@.is_empty(),
            r.cancel.l2nc@.is_empty(),
    {
        let r = Controller { network, offline_queue: Vec::new(), nc_state, cancel: CancelRegistry::new() };
        assert(r.cancel.nc2l@ =~= Map::empty());
        r
    }

    /// Takes one command.
    pub fn step(&mut self, cmd: Command) -> (r: Step)
        requires
            old(self).wf(),
        ensures
            final(self).wf(),
            id_eq_or_newer(final(self).nc_state.latest_activity_id@, old(self).nc_state.latest_activity_id@),
            match cmd {
                Command::LocEvent(ev) => if old(self).network == NetworkStatus::Connect {
                    r == Step::Reconcile(ev) && final(self).unchanged(old(self))
                } else {
                    &&& r == Step::Queued
                    &&& final(self).offline_queue@ == old(self).offline_queue@.push(ev)
                    &&& final(self).network == old(self).network
                    &&& final(self).keeps_sync_state(old(self))
                },
                Command::NCEvents(batch, new_state) => if old(self).network == NetworkStatus::Disconnect {
                    r == Step::Unexpected && final(self).unchanged(old(self))
                } else if advances(
                    old(self).nc_state.latest_activity_id@,
                    new_state.latest_activity_id@,
                ) {
                    r == Step::ApplyRemote(batch, new_state) && final(self).unchanged(old(self))
                } else {
                    r == Step::StaleBatch && final(self).unchanged(old(self))
                },
                Command::PullEvent { target, is_recursive, stash } => final(self).unchanged(old(self)) && if old(
                    self,
                ).network == NetworkStatus::Connect {
                    r == (Step::Pull { target, is_recursive, stash })
                } else {
                    r == Step::PullRefused
                },
                Command::UpdateExcFile => r == (Step::Exit { restart: true }) && final(self).unchanged(old(self)),
                Command::UpdateConfigFile => r == (Step::Exit { restart: true }) && final(self).unchanged(old(self)),
                Command::HardRepair => r == Step::HardRepair && final(self).unchanged(old(self)),
                Command::NormalRepair => r == Step::NormalRepair && final(self).unchanged(old(self)),
                Command::NetworkConnect => if old(self).network == NetworkStatus::Connect {
                    r == Step::Idle && final(self).unchanged(old(self))
                } else {
                    &&& r == Step::SoftRepair(old(self).offline_queue)
                    &&& final(self).offline_queue@.len() == 0
                    &&& final(self).network == old(self).network
                    &&& final(self).keeps_sync_state(old(self))
                },
                Command::NetworkDisconnect => if old(self).network == NetworkStatus::Connect {
                    &&& r == Step::Idle
                    &&& final(self).network == NetworkStatus::Disconnect
                    &&& final(self).offline_queue@ == old(self).offline_queue@
                    &&& final(self).nc_state == old(self).nc_state
                    &&& final(self).cancel.nc2l@.is_empty()
                    &&& final(self).cancel.l2nc@.is_empty()
                } else {
                    r == Step::Idle && final(self).unchanged(old(self))
                },
                Command::Terminate(restart) => r == (Step::Exit { restart }) && final(self).unchanged(old(self)),
                Command::Error(e) => r == Step::Fail(e) && final(self).unchanged(old(self)),
            },
    {
        match cmd {
            Command::LocEvent(ev) => {
                if self.network == NetworkStatus::Connect {
                    Step::Reconcile(ev)
                } else {
                    self.offline_queue.push(ev);
                    Step::Queued
                }
            },
            Command::NCEvents(batch, new_state) => {
                if self.network == NetworkStatus::Disconnect {
                    return Step::Unexpected;
                }
                let newer = new_state.eq_or_newer_than(&self.nc_state);
                let older = self.nc_state.eq_or_newer_than(&new_state);
                if newer && !older {
                    Step::ApplyRemote(batch, new_state)
                } else {
                    Step::StaleBatch
                }
            },
            Command::PullEvent { target, is_recursive, stash } => {
                if self.network == NetworkStatus::Connect {
                    Step::Pull { target, is_recursive, stash }
                } else {
                    Step::PullRefused
                }
            },
            Command::UpdateExcFile => Step::Exit { restart: true },
            Command::UpdateConfigFile => Step::Exit { restart: true },
            Command::HardRepair => Step::HardRepair,
            Command::NormalRepair => Step::NormalRepair,
            Command::NetworkConnect => {
                if self.network == NetworkStatus::Connect {
                    Step::Idle
                } else {
                    let mut queued: Vec<LocalEvent> = Vec::new();
                    core::mem::swap(&mut queued, &mut self.offline_queue);
                    Step::SoftRepair(queued)
                }
            },
            Command::NetworkDisconnect => {
                if self.network == NetworkStatus::Connect {
                    self.cancel.clear();
                    self.network = NetworkStatus::Disconnect;
                }
                Step::Idle
            },
            Command::Terminate(restart) => Step::Exit { restart },
            Command::Error(e) => Step::Fail(e),
        }
    }

    /// Takes the outcome of applying a remote batch that ends at `new_state`:
    /// the cursor moves there only when the batch completed (`ok`) and the
    /// position is newer than the cursor; otherwise it stays, so the batch's
    /// activities are fetched again. True when the cursor moved.
    pub fn finish_remote_batch(&mut self, new_state: NCState, ok: bool) -> (r: bool)
        requires
            old(self).wf(),
        ensures
            final(self).wf(),
            r == (ok && advances(old(self).nc_state.latest_activity_id@, new_state.latest_activity_id@)),
            r ==> final(self).nc_state == new_state,
            !r ==> final(self).nc_state == old(self).nc_state,
            id_eq_or_newer(final(self).nc_state.latest_activity_id@, old(self).nc_state.latest_activity_id@),
            final(self).network == old(self).network,
            final(self).offline_queue@ == old(self).offline_queue@,
            final(self).cancel.nc2l@ == old(self).cancel.nc2l@,
            final(self).cancel.l2nc@ == old(self).cancel.l2nc@,
    {
        if !ok {
            return false;
        }
        let newer = new_state.eq_or_newer_than(&self.nc_state);
        let older = self.nc_state.eq_or_newer_than(&new_state);
        if newer && !older {
            self.nc_state = new_state;
            true
        } else {
            false
        }
    }

    /// Takes the outcome of a soft repair: when the repair asks for a rerun
    /// the loop stops and restarts, else the client is online again.
    pub fn finish_soft_repair(&mut self, rerun: bool) -> (r: Step)
        requires
            old(self).wf(),
        ensures
            final(self).wf(),
            final(self).keeps_sync_state(old(self)),
            final(self).offline_queue@ == old(self).offline_queue@,
            rerun ==> r == (Step::Exit { restart: true }) && final(self).network == old(self).network,
            !rerun ==> r == Step::Idle && final(self).network == NetworkStatus::Connect,
    {
        if rerun {
            Step::Exit { restart: true }
        } else {
            self.network = NetworkStatus::Connect;
            Step::Idle
        }
    }
}

/// Whether the remote poller hands a batch to the loop: only a non-empty
/// batch that moves the cursor forward.
pub fn poll_emits(cur: &NCState, batch: &Vec<RemoteEvent>, new: &NCState) -> (r: bool)
    ensures
        r == (batch@.len() > 0 && advances(cur.latest_activity_id@, new.latest_activity_id@)),
{
    batch.len() > 0 && new.eq_or_newer_than(cur) && !cur.eq_or_newer_than(new)
}

/// The command that the online probe sends when the reachability of the
/// host changes, and none while it stays the same.
pub fn probe_transition(was_online: bool, online: bool) -> (r: Option<Command>)
    ensures
        was_online == online ==> r is None,
        !was_online && online ==> r matches Some(Command::NetworkConnect),
        was_online && !online ==> r matches Some(Command::NetworkDisconnect),
{
    if was_online == online {
        None
    } else if online {
        Some(Command::NetworkConnect)
    } else {
        Some(Command::NetworkDisconnect)
    }
}

/// Once a completed batch has moved the cursor to its end, the same batch
/// delivered again is skipped: applying it twice changes nothing more.
pub proof fn law_batch_applies_once(cur: Seq<char>, new: Seq<char>)
    requires
        advances(cur, new),
    ensures
        !advances(new, new),
{
}

} // verus!
