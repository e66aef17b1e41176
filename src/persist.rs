//! The shared state (shadow tree and remote cursor) and its durable
//! snapshot. A snapshot lists the tree's entries in order; reading one back
//! checks that they form a tree.

use vstd::prelude::*;
use crate::activity::NCState;
use crate::tree::{Entry, Tree, TreeError, entries_wf, seq_map, law_snapshot_round_trip};

verus! {

pub struct PublicResource {
    pub root: Tree,
    pub nc_state: NCState,
}

pub struct Snapshot {
    pub latest_activity_id: String,
    pub entries: Vec<Entry>,
}

/// How the client starts.
pub enum Resume {
    /// From the saved snapshot, without walking the remote tree.
    Loaded(PublicResource),
    /// No usable snapshot: walk the remote tree first.
    NeedWalk,
    /// No usable snapshot and the host is unreachable: the client cannot start.
    Offline,
}

impl PublicResource {
    pub open spec fn wf(&self) -> bool {
        self.root.wf()
    }

    pub fn new(root: Tree, nc_state: NCState) -> (r: PublicResource)
        requires
            root.wf(),
        ensures
            r.wf(),
            r.root == root,
            r.nc_state == nc_state,
    {
        PublicResource { root, nc_state }
    }

    /// The snapshot of the current state.
    pub fn snapshot(&self) -> (r: Snapshot)
        ensures
            r.latest_activity_id@ == self.nc_state.latest_activity_id@,
            r.entries@.len() == self.root.entries@.len(),
            forall|i: int| 0 <= i < r.entries@.len() ==> (#[trigger] r.entries@[i]).path@
                == self.root.entries@[i].path@ && r.entries@[i].meta() == self.root.entries@[i].meta(),
    {
        Snapshot { latest_activity_id: self.nc_state.latest_activity_id.clone(), entries: self.root.to_records() }
    }

    /// The state that a snapshot holds; `Corrupt` where its entries do not
    /// form a tree.
    pub fn from_snapshot(s: Snapshot) -> (r: Result<PublicResource, TreeError>)
        ensures
            r is Ok <==> entries_wf(s.entries@),
            r is Err ==> r == Err::<PublicResource, TreeError>(TreeError::Corrupt),
            r matches Ok(p) ==> p.wf() && p.root.entries@ == s.entries@ && p.nc_state.latest_activity_id
                == s.latest_activity_id,
    {
        match Tree::from_records(s.entries) {
            Ok(root) => Ok(PublicResource { root, nc_state: NCState { latest_activity_id: s.latest_activity_id } }),
            Err(e) => Err(e),
        }
    }
}

/// A snapshot is there and its entries form a tree.
pub open spec fn usable(snapshot: Option<Snapshot>) -> bool {
    match snapshot {
        Some(s) => entries_wf(s.entries@),
        None => false,
    }
}

/// The first state of a client without a snapshot, from a walk of the
/// remote tree (its entries) and the id of the
/// latest remote activity at that time, with the snapshot to save; the walk
/// is refused as `Corrupt` where its entries do not form a tree.
pub fn init_from_walk(walk: Vec<Entry>, latest_activity_id: String) -> (r: Result<(PublicResource, Snapshot), TreeError>)
    ensures
        r is Ok <==> entries_wf(walk@),
        r is Err ==> r == Err::<(PublicResource, Snapshot), TreeError>(TreeError::Corrupt),
        r matches Ok((p, s)) ==> {
            &&& p.wf()
            &&& p.root.entries@ == walk@
            &&& p.nc_state.latest_activity_id@ == latest_activity_id@
            &&& s.latest_activity_id@ == latest_activity_id@
            &&& entries_wf(s.entries@)
            &&& seq_map(s.entries@) == seq_map(walk@)
        },
{
    match Tree::from_records(walk) {
        Ok(root) => {
            let p = PublicResource { root, nc_state: NCState { latest_activity_id } };
            let s = p.snapshot();
            proof { law_snapshot_round_trip(p.root, s.entries@); }
            Ok((p, s))
        },
        Err(e) => Err(e),
    }
}

/// Decides how to start: from a well-formed snapshot if there is one, else
/// by a walk of the remote tree, which needs the host to be reachable.
pub fn resume(snapshot: Option<Snapshot>, online: bool) -> (r: Resume)
    ensures
        r is Loaded <==> usable(snapshot),
        r matches Resume::Loaded(p) ==> p.wf() && p.root.entries@ == snapshot.unwrap().entries@
            && p.nc_state.latest_activity_id == snapshot.unwrap().latest_activity_id,
        r is NeedWalk <==> !usable(snapshot) && online,
        r is Offline <==> !usable(snapshot) && !online,
{
    match snapshot {
        Some(s) => match PublicResource::from_snapshot(s) {
            Ok(p) => Resume::Loaded(p),
            Err(_) => if online {
                Resume::NeedWalk
            } else {
                Resume::Offline
            },
        },
        None => if online {
            Resume::NeedWalk
        } else {
            Resume::Offline
        },
    }
}

} // verus!
