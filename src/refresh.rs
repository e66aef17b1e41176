//! A pull: bringing a local subtree up to date with a fresh listing of the
//! remote one, whatever the activity feed said.

use vstd::prelude::*;
use crate::paths::str_eq;
use crate::paths::{in_subtree, parent_path, valid_path, check_path, parent_of, within};
use crate::reconcile::{ActionView, RemoteAction};
use crate::tree::{Entry, EntryKind, EntryView, Tree, find_path, seq_has, opt_view};

verus! {

/// The paths that a pull of `target` covers: its whole subtree, or the
/// target and its direct children only.
pub open spec fn in_scope(q: Seq<char>, target: Seq<char>, recursive: bool) -> bool {
    if recursive {
        in_subtree(q, target)
    } else {
        q == target || parent_path(q) == target
    }
}

/// A listed remote entry needs fetching: it is missing locally, or, for a
/// file, its version or kind differs.
pub open spec fn needs_fetch(tree: Map<Seq<char>, EntryView>, e: Entry) -> bool {
    if !tree.contains_key(e.path@) {
        true
    } else if e.kind == EntryKind::Directory {
        tree[e.path@].kind != EntryKind::Directory
    } else {
        tree[e.path@].kind != EntryKind::File || tree[e.path@].etag != opt_view(e.etag)
    }
}

pub open spec fn fetch_action(e: Entry) -> ActionView {
    if e.kind == EntryKind::Directory {
        ActionView::MakeDir(e.path@)
    } else {
        ActionView::Put(e.path@)
    }
}

pub open spec fn fetches(remote: Seq<Entry>, tree: Map<Seq<char>, EntryView>, target: Seq<char>, recursive: bool) -> Seq<
    ActionView,
>
    decreases remote.len(),
{
    if remote.len() == 0 {
        seq![]
    } else {
        let rest = fetches(remote.drop_first(), tree, target, recursive);
        if in_scope(remote[0].path@, target, recursive) && needs_fetch(tree, remote[0]) {
            seq![fetch_action(remote[0])] + rest
        } else {
            rest
        }
    }
}

/// Local entries in scope that the listing no longer has.
pub open spec fn removals(local: Seq<Entry>, remote: Seq<Entry>, target: Seq<char>, recursive: bool) -> Seq<ActionView>
    decreases local.len(),
{
    if local.len() == 0 {
        seq![]
    } else {
        let rest = removals(local.drop_first(), remote, target, recursive);
        if in_scope(local[0].path@, target, recursive) && !seq_has(remote, local[0].path@) {
            seq![ActionView::Remove(local[0].path@)] + rest
        } else {
            rest
        }
    }
}

fn scoped(q: &str, target: &str, recursive: bool) -> (r: bool)
    requires
        valid_path(target@),
    ensures
        r == in_scope(q@, target@, recursive),
{
    if recursive {
        within(q, target)
    } else {
        str_eq(q, target) || str_eq(parent_of(q).as_str(), target)
    }
}

/// The local mutations that bring the subtree at `target` in line with the
/// remote listing `remote`: first the fetches, in the listing's order, then
/// the removals, in the tree's order. An invalid target covers nothing.
pub fn plan_refresh(tree: &Tree, target: &str, remote: &Vec<Entry>, recursive: bool) -> (r: Vec<RemoteAction>)
    requires
        tree.wf(),
    ensures
        !valid_path(target@) ==> r@.len() == 0,
        valid_path(target@) ==> r@.map_values(|a: RemoteAction| a@) == fetches(remote@, tree@, target@, recursive)
            + removals(tree.entries@, remote@, target@, recursive),
{
    let mut r: Vec<RemoteAction> = Vec::new();
    if !check_path(target) {
        return r;
    }
    let ghost full = fetches(remote@, tree@, target@, recursive);
    let mut i: usize = 0;
    proof {
        assert(remote@.skip(0) =~= remote@);
        assert(r@.map_values(|a: RemoteAction| a@) + full =~= full);
    }
    while i < remote.len()
        invariant
            tree.wf(),
            valid_path(target@),
            i <= remote@.len(),
            full == fetches(remote@, tree@, target@, recursive),
            full == r@.map_values(|a: RemoteAction| a@) + fetches(remote@.skip(i as int), tree@, target@, recursive),
        decreases remote@.len() - i,
    {
        let e = &remote[i];
        let ghost rest = remote@.skip(i as int);
        let ghost prev = r@.map_values(|a: RemoteAction| a@);
        proof {
            assert(rest[0] == remote@[i as int]);
            assert(rest.drop_first() =~= remote@.skip(i + 1));
        }
        if scoped(e.path.as_str(), target, recursive) {
            let fetch = match tree.get(e.path.as_str()) {
                None => true,
                Some(t) => {
                    if e.kind == EntryKind::Directory {
                        t.kind != EntryKind::Directory
                    } else {
                        t.kind != EntryKind::File || !same_tag(&t.etag, &e.etag)
                    }
                },
            };
            if fetch {
                let a = if e.kind == EntryKind::Directory {
                    RemoteAction::MakeLocalDir(e.path.clone())
                } else {
                    RemoteAction::Download(e.path.clone())
                };
                r.push(a);
                proof {
                    assert(r@.map_values(|a: RemoteAction| a@) =~= prev.push(a@));
                    assert(prev + fetches(rest, tree@, target@, recursive) =~= prev.push(a@) + fetches(
                        rest.drop_first(),
                        tree@,
                        target@,
                        recursive,
                    ));
                }
            }
        }
        i = i + 1;
    }
    proof {
        assert(remote@.skip(i as int) =~= Seq::<Entry>::empty());
    }
    let ghost fetched = r@.map_values(|a: RemoteAction| a@);
    let ghost gone = removals(tree.entries@, remote@, target@, recursive);
    let mut k: usize = 0;
    proof {
        assert(tree.entries@.skip(0) =~= tree.entries@);
        assert(fetched =~= full);
    }
    while k < tree.entries.len()
        invariant
            valid_path(target@),
            k <= tree.entries@.len(),
            gone == removals(tree.entries@, remote@, target@, recursive),
            fetched + gone == r@.map_values(|a: RemoteAction| a@) + removals(
                tree.entries@.skip(k as int),
                remote@,
                target@,
                recursive,
            ),
        decreases tree.entries@.len() - k,
    {
        let t = &tree.entries[k];
        let ghost rest = tree.entries@.skip(k as int);
        let ghost prev = r@.map_values(|a: RemoteAction| a@);
        proof {
            assert(rest[0] == tree.entries@[k as int]);
            assert(rest.drop_first() =~= tree.entries@.skip(k + 1));
        }
        if scoped(t.path.as_str(), target, recursive) && find_path(remote, t.path.as_str()).is_none() {
            let a = RemoteAction::RemoveLocal(t.path.clone());
            r.push(a);
            proof {
                assert(r@.map_values(|a: RemoteAction| a@) =~= prev.push(a@));
                assert(prev + removals(rest, remote@, target@, recursive) =~= prev.push(a@) + removals(
                    rest.drop_first(),
                    remote@,
                    target@,
                    recursive,
                ));
            }
        }
        k = k + 1;
    }
    proof {
        assert(tree.entries@.skip(k as int) =~= Seq::<Entry>::empty());
        assert(r@.map_values(|a: RemoteAction| a@) + Seq::<ActionView>::empty() =~= r@.map_values(|a: RemoteAction| a@));
    }
    r
}

fn same_tag(a: &Option<String>, b: &Option<String>) -> (r: bool)
    ensures
        r == (opt_view(*a) == opt_view(*b)),
{
    match (a, b) {
        (Some(x), Some(y)) => str_eq(x.as_str(), y.as_str()),
        (None, None) => true,
        _ => false,
    }
}

} // verus!
