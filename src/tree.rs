//! The shadow tree: the client's picture of the remote namespace.
//!
//! Entries are kept in one vector in insertion order, each under its absolute
//! path. The first entry is the root directory; every other entry's parent
//! directory is in the tree, so a file never has children.

use vstd::prelude::*;
use vstd::string::*;
use crate::paths::str_eq;
use crate::paths::{
    root_path, valid_path, parent_path, in_subtree, is_descendant, rebase, lemma_parent, lemma_parent_in_subtree,
    lemma_parent_stays, lemma_rebase, lemma_rebase_injective, lemma_rebase_parent, lemma_subtree_suffix, check_path,
    parent_of, within, basename, base_name, lemma_join_parent_basename,
};


verus! {

#[derive(Clone, Copy, Debug, PartialEq, Eq, Structural)]
pub enum EntryKind {
    File,
    Directory,
}

/// One entry of the tree.
#[derive(Debug)]
pub struct Entry {
    pub path: String,
    pub kind: EntryKind,
    /// Integrity token that the server gave, if known.
    pub etag: Option<String>,
    /// Byte size of a file, if known.
    pub size: Option<u64>,
}

/// What the tree holds at a path.
pub struct EntryView {
    pub kind: EntryKind,
    pub etag: Option<Seq<char>>,
    pub size: Option<u64>,
}

pub open spec fn opt_view(o: Option<String>) -> Option<Seq<char>> {
    match o {
        Some(s) => Some(s@),
        None => None,
    }
}

impl Entry {
    pub open spec fn meta(&self) -> EntryView {
        EntryView { kind: self.kind, etag: opt_view(self.etag), size: self.size }
    }

    /// The entry's name: the last segment of its path, empty for the root.
    pub fn name(&self) -> (r: String)
        ensures
            r@ == basename(self.path@),
    {
        base_name(self.path.as_str())
    }

    /// A copy of the entry.
    pub fn duplicate(&self) -> (r: Entry)
        ensures
            r.path@ == self.path@,
            r.meta() == self.meta(),
    {
        Entry {
            path: self.path.clone(),
            kind: self.kind,
            etag: copy_opt(&self.etag),
            size: self.size,
        }
    }
}

pub fn copy_opt(o: &Option<String>) -> (r: Option<String>)
    ensures
        opt_view(r) == opt_view(*o),
{
    match o {
        Some(s) => Some(s.clone()),
        None => None,
    }
}

#[derive(Clone, Copy, Debug, PartialEq, Eq, Structural)]
pub enum TreeError {
    /// The path is not a valid absolute path.
    InvalidPath,
    /// The path, or the directory that should hold it, is not in the tree.
    PathNotFound,
    /// The path is already in the tree.
    AlreadyExists,
    /// The parent is a file.
    NotADirectory,
    /// The root cannot be removed or moved.
    RootEntry,
    /// A sequence of entries does not form a tree.
    Corrupt,
}

/// Whether entries laid out in this order form a well-formed tree.
pub open spec fn entries_wf(s: Seq<Entry>) -> bool {
    &&& s.len() > 0
    &&& s[0].path@ == root_path()
    &&& s[0].kind == EntryKind::Directory
    &&& forall|i: int| 0 <= i < s.len() ==> valid_path(#[trigger] s[i].path@)
    &&& unique_paths(s)
    &&& forall|i: int| 0 < i < s.len() ==> exists|j: int|
        0 <= j < s.len() && #[trigger] s[j].path@ == parent_path(#[trigger] s[i].path@)
            && s[j].kind == EntryKind::Directory
}

pub open spec fn unique_paths(s: Seq<Entry>) -> bool {
    forall|i: int, j: int|
        0 <= i < s.len() && 0 <= j < s.len() && i != j ==> #[trigger] s[i].path@ != #[trigger] s[j].path@
}

pub open spec fn seq_has(s: Seq<Entry>, p: Seq<char>) -> bool {
    exists|i: int| 0 <= i < s.len() && #[trigger] s[i].path@ == p
}

/// What the entries say for each path.
pub open spec fn seq_map(s: Seq<Entry>) -> Map<Seq<char>, EntryView> {
    Map::new(
        |p: Seq<char>| seq_has(s, p),
        |p: Seq<char>| s[choose|i: int| 0 <= i < s.len() && #[trigger] s[i].path@ == p].meta(),
    )
}

pub struct Tree {
    pub entries: Vec<Entry>,
}

impl Tree {
    pub open spec fn wf(&self) -> bool {
        entries_wf(self.entries@)
    }

    pub open spec fn has(&self, p: Seq<char>) -> bool {
        seq_has(self.entries@, p)
    }

    /// The tree as a map from path to entry.
    pub open spec fn view(&self) -> Map<Seq<char>, EntryView> {
        seq_map(self.entries@)
    }

    pub open spec fn is_dir(&self, p: Seq<char>) -> bool {
        self@.contains_key(p) && self@[p].kind == EntryKind::Directory
    }

    /// A tree that holds the root directory alone.
    pub fn new() -> (r: Tree)
        ensures
            r.wf(),
            r@ == map![root_path() => EntryView { kind: EntryKind::Directory, etag: None, size: None }],
    {
        let root = Entry { path: "/".to_owned(), kind: EntryKind::Directory, etag: None, size: None };
        proof { reveal_strlit("/"); }
        let mut entries: Vec<Entry> = Vec::new();
        entries.push(root);
        let r = Tree { entries };
        assert(r.entries@[0].path@ =~= root_path());
        proof { lemma_map_entry(r.entries@, 0); }
        assert(r@ =~= map![root_path() => EntryView { kind: EntryKind::Directory, etag: None, size: None }]);
        r
    }

    /// The index of the entry at `p`.
    pub fn find(&self, p: &str) -> (r: Option<usize>)
        ensures
            r matches Some(i) ==> i < self.entries@.len() && self.entries@[i as int].path@ == p@,
            r is None <==> !self.has(p@),
    {
        find_path(&self.entries, p)
    }

    /// The entries in order, as a snapshot records them.
    pub fn to_records(&self) -> (r: Vec<Entry>)
        ensures
            r@.len() == self.entries@.len(),
            forall|i: int| 0 <= i < r@.len() ==> (#[trigger] r@[i]).path@ == self.entries@[i].path@
                && r@[i].meta() == self.entries@[i].meta(),
    {
        let mut r: Vec<Entry> = Vec::new();
        let mut i: usize = 0;
        while i < self.entries.len()
            invariant
                i <= self.entries@.len(),
                r@.len() == i,
                forall|j: int| 0 <= j < i ==> (#[trigger] r@[j]).path@ == self.entries@[j].path@
                    && r@[j].meta() == self.entries@[j].meta(),
            decreases self.entries@.len() - i,
        {
            r.push(self.entries[i].duplicate());
            i = i + 1;
        }
        r
    }

    /// Rebuilds a tree from snapshot records; `Corrupt` where they do not form one.
    pub fn from_records(records: Vec<Entry>) -> (r: Result<Tree, TreeError>)
        ensures
            r is Ok <==> entries_wf(records@),
            r matches Ok(t) ==> t.entries@ == records@,
            r is Err ==> r == Err::<Tree, TreeError>(TreeError::Corrupt),
    {
        if check_records(&records) {
            Ok(Tree { entries: records })
        } else {
            Err(TreeError::Corrupt)
        }
    }

    /// Adds an entry under a directory that the tree holds.
    pub fn insert(&mut self, path: String, kind: EntryKind, etag: Option<String>, size: Option<u64>) -> (r: Result<(), TreeError>)
        requires
            old(self).wf(),
        ensures
            final(self).wf(),
            r is Err ==> final(self).entries@ == old(self).entries@,
            r is Ok ==> final(self)@ == old(self)@.insert(path@, EntryView { kind, etag: opt_view(etag), size }),
            r is Ok ==> final(self).entries@ == old(self).entries@.push((Entry { path, kind, etag, size })),
            r matches Err(e) ==> insert_check(old(self)@, path@) == Some(e),
            r is Ok ==> insert_check(old(self)@, path@) is None,
            r == Err::<(), TreeError>(TreeError::InvalidPath) <==> !valid_path(path@),
            r == Err::<(), TreeError>(TreeError::AlreadyExists) <==> valid_path(path@) && old(self)@.contains_key(path@),
            r == Err::<(), TreeError>(TreeError::PathNotFound) <==> valid_path(path@) && !old(self)@.contains_key(path@)
                && !old(self)@.contains_key(parent_path(path@)),
            r == Err::<(), TreeError>(TreeError::NotADirectory) <==> valid_path(path@) && !old(self)@.contains_key(path@)
                && old(self)@.contains_key(parent_path(path@)) && !old(self).is_dir(parent_path(path@)),
    {
        if !check_path(path.as_str()) {
            return Err(TreeError::InvalidPath);
        }
        if self.find(path.as_str()).is_some() {
            return Err(TreeError::AlreadyExists);
        }
        let parent = parent_of(path.as_str());
        let j = match self.find(parent.as_str()) {
            None => {
                return Err(TreeError::PathNotFound);
            },
            Some(j) => j,
        };
        proof { lemma_map_entry(self.entries@, j as int); }
        if self.entries[j].kind != EntryKind::Directory {
            return Err(TreeError::NotADirectory);
        }
        let ghost s = self.entries@;
        let e = Entry { path, kind, etag, size };
        self.entries.push(e);
        proof {
            lemma_map_push(s, e);
            let t = self.entries@;
            assert(t[j as int] == s[j as int]);
            assert forall|i: int| 0 < i < t.len() implies exists|k: int|
                0 <= k < t.len() && #[trigger] t[k].path@ == parent_path(#[trigger] t[i].path@)
                    && t[k].kind == EntryKind::Directory by {
                if i < s.len() {
                    let k = choose|k: int| 0 <= k < s.len() && #[trigger] s[k].path@ == parent_path(s[i].path@)
                        && s[k].kind == EntryKind::Directory;
                    assert(t[k] == s[k]);
                } else {
                    assert(t[j as int].path@ == parent_path(t[i].path@));
                }
            }
            assert(t[0] == s[0]);
        }
        Ok(())
    }

    /// Replaces the integrity data of the entry at `p`.
    pub fn set_meta(&mut self, p: &str, etag: Option<String>, size: Option<u64>) -> (r: Result<(), TreeError>)
        requires
            old(self).wf(),
        ensures
            final(self).wf(),
            r is Err ==> final(self).entries@ == old(self).entries@,
            r is Err <==> !old(self)@.contains_key(p@),
            r is Err ==> r == Err::<(), TreeError>(TreeError::PathNotFound),
            r is Ok ==> final(self)@ == old(self)@.insert(
                p@,
                EntryView { kind: old(self)@[p@].kind, etag: opt_view(etag), size },
            ),
            same_order(final(self).entries@, old(self).entries@),
    {
        let i = match self.find(p) {
            None => {
                return Err(TreeError::PathNotFound);
            },
            Some(i) => i,
        };
        let ghost s = self.entries@;
        proof { lemma_map_entry(s, i as int); }
        let e = Entry { path: self.entries[i].path.clone(), kind: self.entries[i].kind, etag, size };
        self.entries.set(i, e);
        proof {
            let t = self.entries@;
            assert forall|a: int| 0 <= a < t.len() implies #[trigger] t[a].path@ == s[a].path@ && (a != i ==> t[a] == s[a]) by {}
            assert(unique_paths(t));
            assert forall|a: int| 0 < a < t.len() implies exists|k: int|
                0 <= k < t.len() && #[trigger] t[k].path@ == parent_path(#[trigger] t[a].path@)
                    && t[k].kind == EntryKind::Directory by {
                let k = choose|k: int| 0 <= k < s.len() && #[trigger] s[k].path@ == parent_path(s[a].path@)
                    && s[k].kind == EntryKind::Directory;
                assert(t[k].path@ == s[k].path@);
            }
            lemma_map_same_paths(s, t, i as int);
        }
        Ok(())
    }

    /// Records a file at `path` with the given integrity data, adding it
    /// under its directory when it is new.
    pub fn upsert_file(&mut self, path: String, etag: Option<String>, size: Option<u64>) -> (r: Result<(), TreeError>)
        requires
            old(self).wf(),
        ensures
            final(self).wf(),
            r is Err ==> final(self).entries@ == old(self).entries@,
            r is Ok ==> final(self)@ == old(self)@.insert(
                path@,
                EntryView { kind: EntryKind::File, etag: opt_view(etag), size },
            ),
            r matches Err(e) ==> upsert_check(old(self)@, path@) == Some(e),
            r is Ok && !old(self)@.contains_key(path@) ==> final(self).entries@ == old(self).entries@.push(
                (Entry { path, kind: EntryKind::File, etag, size }),
            ),
            r is Ok && old(self)@.contains_key(path@) ==> same_order(final(self).entries@, old(self).entries@),
            r is Ok ==> upsert_check(old(self)@, path@) is None,
            r == Err::<(), TreeError>(TreeError::InvalidPath) <==> !valid_path(path@),
            r == Err::<(), TreeError>(TreeError::AlreadyExists) <==> valid_path(path@) && old(self).is_dir(path@),
            r == Err::<(), TreeError>(TreeError::PathNotFound) <==> valid_path(path@) && !old(self)@.contains_key(path@)
                && !old(self)@.contains_key(parent_path(path@)),
            r == Err::<(), TreeError>(TreeError::NotADirectory) <==> valid_path(path@) && !old(self)@.contains_key(path@)
                && old(self)@.contains_key(parent_path(path@)) && !old(self).is_dir(parent_path(path@)),
    {
        if !check_path(path.as_str()) {
            return Err(TreeError::InvalidPath);
        }
        match self.find(path.as_str()) {
            Some(i) => {
                proof { lemma_map_entry(self.entries@, i as int); }
                if self.entries[i].kind == EntryKind::Directory {
                    return Err(TreeError::AlreadyExists);
                }
                self.set_meta(path.as_str(), etag, size)
            },
            None => self.insert(path, EntryKind::File, etag, size),
        }
    }

    /// Removes the entry at `p` with everything below it, and hands the entry back.
    pub fn remove(&mut self, p: &str) -> (r: Option<Entry>)
        requires
            old(self).wf(),
        ensures
            final(self).wf(),
            r is Some <==> p@ != root_path() && old(self)@.contains_key(p@),
            r matches Some(e) ==> e.path@ == p@ && e.meta() == old(self)@[p@],
            r is None ==> final(self).entries@ == old(self).entries@,
            r is Some ==> final(self)@ == Map::new(
                |q: Seq<char>| old(self)@.contains_key(q) && !in_subtree(q, p@),
                |q: Seq<char>| old(self)@[q],
            ),
    {
        let i = match self.find(p) {
            None => {
                return None;
            },
            Some(i) => i,
        };
        if i == 0 {
            return None;
        }
        let ghost s = self.entries@;
        proof {
            lemma_map_entry(s, i as int);
            lemma_map_entry(s, 0);
        }
        let removed = self.entries[i].duplicate();
        let mut kept: Vec<Entry> = Vec::new();
        let ghost mut src: Seq<int> = Seq::empty();
        let mut k: usize = 0;
        while k < self.entries.len()
            invariant
                self.entries@ == s,
                entries_wf(s),
                valid_path(p@),
                p@ != root_path(),
                k <= s.len(),
                src.len() == kept@.len(),
                forall|a: int| 0 <= a < src.len() ==> 0 <= #[trigger] src[a] < k,
                forall|a: int, b: int| 0 <= a < b < src.len() ==> #[trigger] src[a] < #[trigger] src[b],
                forall|a: int| 0 <= a < src.len() ==> (#[trigger] kept@[a]).path@ == s[src[a]].path@
                    && kept@[a].meta() == s[src[a]].meta() && !in_subtree(s[src[a]].path@, p@),
                forall|j: int| 0 <= j < k && !in_subtree(#[trigger] s[j].path@, p@) ==> exists|a: int|
                    0 <= a < src.len() && src[a] == j,
                k > 0 ==> src.len() > 0 && src[0] == 0,
            decreases s.len() - k,
        {
            if !within(self.entries[k].path.as_str(), p) {
                let d = self.entries[k].duplicate();
                kept.push(d);
                proof {
                    let old_src = src;
                    src = src.push(k as int);
                    assert(src[src.len() - 1] == k);
                    assert forall|j: int| 0 <= j < k + 1 && !in_subtree(#[trigger] s[j].path@, p@) implies
                        exists|a: int| 0 <= a < src.len() && src[a] == j by {
                        if j < k {
                            let a = choose|a: int| 0 <= a < old_src.len() && old_src[a] == j;
                            assert(src[a] == j);
                        } else {
                            assert(src[src.len() - 1] == j);
                        }
                    }
                }
            } else if k == 0 {
                proof {
                    assert(s[0].path@ == root_path());
                    assert(root_path().len() == 1);
                    assert(p@.len() > 1) by {
                        if p@.len() == 1 {
                            assert(p@ =~= root_path());
                        }
                    }
                }
            }
            k = k + 1;
        }
        proof {
            let t = kept@;
            assert(unique_paths(t)) by {
                assert forall|a: int, b: int| 0 <= a < t.len() && 0 <= b < t.len() && a != b implies
                    #[trigger] t[a].path@ != #[trigger] t[b].path@ by {
                    if a < b {
                        assert(src[a] < src[b]);
                    } else {
                        assert(src[b] < src[a]);
                    }
                }
            }
            assert forall|a: int| 0 <= a < t.len() implies valid_path(#[trigger] t[a].path@) by {
                assert(valid_path(s[src[a]].path@));
            }
            assert(t[0].path@ == root_path());
            assert forall|a: int| 0 < a < t.len() implies exists|b: int|
                0 <= b < t.len() && #[trigger] t[b].path@ == parent_path(#[trigger] t[a].path@)
                    && t[b].kind == EntryKind::Directory by {
                let j = src[a];
                assert(src[0] < src[a]);
                let m = choose|m: int| 0 <= m < s.len() && #[trigger] s[m].path@ == parent_path(s[j].path@)
                    && s[m].kind == EntryKind::Directory;
                if in_subtree(s[m].path@, p@) {
                    assert(s[j].path@ != root_path()) by {
                        if s[j].path@ == root_path() {
                            assert(s[0].path@ == s[j].path@);
                        }
                    }
                    lemma_parent_in_subtree(s[j].path@, p@);
                }
                let b = choose|b: int| 0 <= b < src.len() && src[b] == m;
                assert(t[b].path@ == parent_path(t[a].path@));
            }
            let target = Map::new(
                |q: Seq<char>| seq_map(s).contains_key(q) && !in_subtree(q, p@),
                |q: Seq<char>| seq_map(s)[q],
            );
            assert forall|q: Seq<char>| #[trigger] seq_map(t).contains_key(q) <==> target.contains_key(q) by {
                if seq_map(t).contains_key(q) {
                    let a = choose|a: int| 0 <= a < t.len() && #[trigger] t[a].path@ == q;
                    assert(s[src[a]].path@ == q);
                }
                if target.contains_key(q) {
                    let j = choose|j: int| 0 <= j < s.len() && #[trigger] s[j].path@ == q;
                    let a = choose|a: int| 0 <= a < src.len() && src[a] == j;
                    assert(t[a].path@ == q);
                }
            }
            assert forall|q: Seq<char>| seq_map(t).contains_key(q) implies #[trigger] seq_map(t)[q] == target[q] by {
                let a = choose|a: int| 0 <= a < t.len() && #[trigger] t[a].path@ == q;
                lemma_map_entry(t, a);
                lemma_map_entry(s, src[a]);
            }
            assert(seq_map(t) =~= target);
        }
        self.entries = kept;
        Some(removed)
    }

    /// Moves the entry at `from`, with everything below it, to `to`.
    #[verifier::rlimit(40)]
    pub fn rename(&mut self, from: &str, to: &str) -> (r: Result<(), TreeError>)
        requires
            old(self).wf(),
        ensures
            final(self).wf(),
            r is Err ==> final(self).entries@ == old(self).entries@,
            r matches Err(e) ==> rename_check(old(self)@, from@, to@) == Some(e),
            r is Ok ==> rename_check(old(self)@, from@, to@) is None,
            r is Ok ==> final(self)@ == moved(old(self)@, from@, to@),
            r is Ok ==> final(self).entries@.len() == old(self).entries@.len() && forall|i: int|
                0 <= i < old(self).entries@.len() ==> (#[trigger] final(self).entries@[i]).path@ == moved_path(
                    old(self).entries@[i].path@,
                    from@,
                    to@,
                ) && final(self).entries@[i].meta() == old(self).entries@[i].meta(),
    {
        if !check_path(to) {
            return Err(TreeError::InvalidPath);
        }
        let i = match self.find(from) {
            None => {
                return Err(TreeError::PathNotFound);
            },
            Some(i) => i,
        };
        let ghost s = self.entries@;
        proof {
            lemma_map_entry(s, i as int);
            lemma_map_entry(s, 0);
        }
        if i == 0 {
            return Err(TreeError::RootEntry);
        }
        if self.find(to).is_some() {
            return Err(TreeError::AlreadyExists);
        }
        proof {
            assert(from@ != root_path());
            assert(valid_path(from@));
        }
        if within(to, from) {
            return Err(TreeError::InvalidPath);
        }
        let parent = parent_of(to);
        let j = match self.find(parent.as_str()) {
            None => {
                return Err(TreeError::PathNotFound);
            },
            Some(j) => j,
        };
        proof { lemma_map_entry(s, j as int); }
        if self.entries[j].kind != EntryKind::Directory {
            return Err(TreeError::NotADirectory);
        }
        proof {
            assert(to@ != root_path()) by {
                assert(s[0].path@ == root_path());
            }
            assert(!in_subtree(parent_path(to@), from@)) by {
                if in_subtree(parent_path(to@), from@) {
                    lemma_parent_in_subtree(to@, from@);
                }
            }
        }
        let n_from = from.unicode_len();
        let mut out: Vec<Entry> = Vec::new();
        let mut k: usize = 0;
        while k < self.entries.len()
            invariant
                self.entries@ == s,
                entries_wf(s),
                valid_path(from@),
                valid_path(to@),
                from@ != root_path(),
                to@ != root_path(),
                n_from == from@.len(),
                k <= s.len(),
                out@.len() == k,
                forall|x: int| 0 <= x < k ==> (#[trigger] out@[x]).path@ == moved_path(s[x].path@, from@, to@)
                    && out@[x].meta() == s[x].meta(),
            decreases s.len() - k,
        {
            let e = &self.entries[k];
            if within(e.path.as_str(), from) {
                let len = e.path.as_str().unicode_len();
                proof { lemma_subtree_suffix(e.path@, from@); }
                let suffix = e.path.as_str().substring_char(n_from, len);
                let mut np = to.to_owned();
                np.append(suffix);
                assert(suffix@ =~= e.path@.skip(n_from as int));
                out.push(Entry { path: np, kind: e.kind, etag: copy_opt(&e.etag), size: e.size });
            } else {
                out.push(e.duplicate());
            }
            k = k + 1;
        }
        proof { self.lemma_rename_result(out@, from@, to@, j as int); }
        self.entries = out;
        Ok(())
    }

    proof fn lemma_rename_result(&self, t: Seq<Entry>, a: Seq<char>, b: Seq<char>, j: int)
        requires
            self.wf(),
            valid_path(a),
            valid_path(b),
            a != root_path(),
            b != root_path(),
            self@.contains_key(a),
            !self@.contains_key(b),
            !is_descendant(b, a),
            0 <= j < self.entries@.len(),
            self.entries@[j].path@ == parent_path(b),
            self.entries@[j].kind == EntryKind::Directory,
            !in_subtree(parent_path(b), a),
            t.len() == self.entries@.len(),
            forall|x: int| 0 <= x < t.len() ==> (#[trigger] t[x]).path@ == moved_path(self.entries@[x].path@, a, b)
                && t[x].meta() == self.entries@[x].meta(),
        ensures
            entries_wf(t),
            seq_map(t) == moved(self@, a, b),
    {
        let s = self.entries@;
        // no entry of the tree lies in the subtree of `b`
        assert forall|x: int| 0 <= x < s.len() implies !in_subtree(#[trigger] s[x].path@, b) by {
            if in_subtree(s[x].path@, b) {
                lemma_ancestor_present(s, s[x].path@, b);
            }
        }
        assert forall|x: int| 0 <= x < s.len() implies valid_path(#[trigger] t[x].path@)
            && (in_subtree(s[x].path@, a) ==> in_subtree(t[x].path@, b)
                && rebase(t[x].path@, b, a) == s[x].path@) && (!in_subtree(s[x].path@, a) ==> t[x].path@
            == s[x].path@) by {
            assert(valid_path(s[x].path@));
            if in_subtree(s[x].path@, a) {
                lemma_rebase(s[x].path@, a, b);
            }
        }
        assert(!in_subtree(root_path(), a)) by {
            assert(a.len() >= 2) by {
                if a.len() == 1 {
                    assert(a =~= root_path());
                }
            }
        }
        assert(t[0].path@ == root_path()) by {
            assert(s[0].path@ == root_path());
        }
        assert(unique_paths(t)) by {
            assert forall|x: int, y: int| 0 <= x < t.len() && 0 <= y < t.len() && x != y implies
                #[trigger] t[x].path@ != #[trigger] t[y].path@ by {
                let ix = in_subtree(s[x].path@, a);
                let iy = in_subtree(s[y].path@, a);
                if ix && iy && t[x].path@ == t[y].path@ {
                    lemma_rebase_injective(s[x].path@, s[y].path@, a, b);
                }
            }
        }
        assert forall|x: int| 0 < x < t.len() implies exists|y: int|
            0 <= y < t.len() && #[trigger] t[y].path@ == parent_path(#[trigger] t[x].path@)
                && t[y].kind == EntryKind::Directory by {
            let q = s[x].path@;
            let m = choose|m: int| 0 <= m < s.len() && #[trigger] s[m].path@ == parent_path(s[x].path@)
                && s[m].kind == EntryKind::Directory;
            assert(t[m].kind == s[m].kind) by {
                assert(t[m].meta() == s[m].meta());
            }
            assert(t[j].kind == s[j].kind) by {
                assert(t[j].meta() == s[j].meta());
            }
            assert(q != root_path()) by {
                if q == root_path() {
                    assert(s[0].path@ == q);
                }
            }
            if in_subtree(q, a) {
                if q == a {
                    assert(rebase(a, a, b) =~= b);
                    assert(t[j].path@ == parent_path(b));
                } else {
                    lemma_parent_stays(q, a);
                    lemma_rebase_parent(q, a, b);
                    assert(t[m].path@ == parent_path(t[x].path@));
                }
            } else {
                if in_subtree(parent_path(q), a) {
                    lemma_parent_in_subtree(q, a);
                }
                assert(t[m].path@ == parent_path(t[x].path@));
            }
        }
        assert(entries_wf(t));
        let target = moved(self@, a, b);
        assert forall|q: Seq<char>| #[trigger] seq_map(t).contains_key(q) <==> target.contains_key(q) by {
            if seq_has(t, q) {
                let x = choose|x: int| 0 <= x < t.len() && #[trigger] t[x].path@ == q;
                if in_subtree(s[x].path@, a) {
                    assert(seq_has(s, rebase(q, b, a)));
                } else {
                    assert(seq_has(s, q));
                }
            }
            if target.contains_key(q) {
                if in_subtree(q, b) && seq_has(s, rebase(q, b, a)) {
                    let x = choose|x: int| 0 <= x < s.len() && #[trigger] s[x].path@ == rebase(q, b, a);
                    lemma_subtree_suffix(q, b);
                    let suf = q.skip(b.len() as int);
                    let q2 = rebase(q, b, a);
                    assert(q2.skip(a.len() as int) =~= suf);
                    assert(in_subtree(q2, a)) by {
                        if suf.len() == 0 {
                            assert(q2 =~= a);
                        } else {
                            assert(q2.take(a.len() as int) =~= a);
                            assert(q2[a.len() as int] == suf[0]);
                        }
                    }
                    assert(rebase(q2, a, b) =~= q);
                    assert(t[x].path@ == q);
                } else {
                    let x = choose|x: int| 0 <= x < s.len() && #[trigger] s[x].path@ == q;
                    assert(t[x].path@ == q);
                }
            }
        }
        assert forall|q: Seq<char>| seq_map(t).contains_key(q) implies #[trigger] seq_map(t)[q] == target[q] by {
            let x = choose|x: int| 0 <= x < t.len() && #[trigger] t[x].path@ == q;
            lemma_map_entry(t, x);
            lemma_map_entry(s, x);
        }
        assert(seq_map(t) =~= target);
    }

    /// A listing of the tree for diagnostics: one line per entry, in order,
    /// with a `/` after each directory but the root.
    pub fn render_tree(&self) -> (r: String)
        ensures
            r@ == rendered(self.entries@),
    {
        let mut r = String::new();
        let mut i: usize = 0;
        while i < self.entries.len()
            invariant
                i <= self.entries@.len(),
                r@ == rendered(self.entries@.take(i as int)),
            decreases self.entries@.len() - i,
        {
            let e = &self.entries[i];
            proof {
                assert(self.entries@.take(i + 1).drop_last() =~= self.entries@.take(i as int));
                reveal_strlit("/");
                reveal_strlit("\n");
            }
            r.append(e.path.as_str());
            if e.kind == EntryKind::Directory && i > 0 {
                r.append("/");
            }
            r.append("\n");
            proof {
                let line = render_line(e, i > 0);
                assert(r@ =~= rendered(self.entries@.take(i as int)) + line);
            }
            i = i + 1;
        }
        assert(self.entries@.take(self.entries@.len() as int) =~= self.entries@);
        r
    }

    /// The indices, in order, of the entries directly inside `dir`.
    pub fn children_of(&self, dir: &str) -> (r: Vec<usize>)
        ensures
            forall|k: int| 0 <= k < r@.len() ==> #[trigger] r@[k] < self.entries@.len(),
            forall|a: int, b: int| 0 <= a < b < r@.len() ==> #[trigger] r@[a] < #[trigger] r@[b],
            forall|i: int|
                0 <= i < self.entries@.len() ==> (is_child(#[trigger] self.entries@[i].path@, dir@) <==> exists|k: int|
                    0 <= k < r@.len() && r@[k] == i),
    {
        let mut r: Vec<usize> = Vec::new();
        let mut i: usize = 0;
        while i < self.entries.len()
            invariant
                i <= self.entries@.len(),
                forall|k: int| 0 <= k < r@.len() ==> #[trigger] r@[k] < i,
                forall|a: int, b: int| 0 <= a < b < r@.len() ==> #[trigger] r@[a] < #[trigger] r@[b],
                forall|j: int|
                    0 <= j < i ==> (is_child(#[trigger] self.entries@[j].path@, dir@) <==> exists|k: int|
                        0 <= k < r@.len() && r@[k] == j),
            decreases self.entries@.len() - i,
        {
            let p = self.entries[i].path.as_str();
            let ghost before = r@;
            let is_root = str_eq(p, "/");
            proof { reveal_strlit("/"); }
            assert("/"@ =~= root_path());
            let parent = parent_of(p);
            let hit = !is_root && str_eq(parent.as_str(), dir);
            assert(hit == is_child(self.entries@[i as int].path@, dir@));
            if hit {
                r.push(i);
            }
            proof {
                assert forall|j: int| 0 <= j < i + 1 implies (is_child(#[trigger] self.entries@[j].path@, dir@)
                    <==> exists|k: int| 0 <= k < r@.len() && r@[k] == j) by {
                    if j < i {
                        if is_child(self.entries@[j].path@, dir@) {
                            let k = choose|k: int| 0 <= k < before.len() && before[k] == j;
                            assert(r@[k] == j);
                        }
                        if exists|k: int| 0 <= k < r@.len() && r@[k] == j {
                            let k = choose|k: int| 0 <= k < r@.len() && r@[k] == j;
                            if k >= before.len() {
                                assert(r@[k] == i);
                            }
                            assert(before[k] == j);
                        }
                    } else if hit {
                        assert(r@[r@.len() - 1] == j);
                    } else {
                        if exists|k: int| 0 <= k < r@.len() && r@[k] == j {
                            let k = choose|k: int| 0 <= k < r@.len() && r@[k] == j;
                            assert(before[k] < i);
                        }
                    }
                }
            }
            i = i + 1;
        }
        r
    }

    /// The entry at `p`, if any.
    pub fn get(&self, p: &str) -> (r: Option<&Entry>)
        requires
            self.wf(),
        ensures
            r is Some <==> self@.contains_key(p@),
            r matches Some(e) ==> e.path@ == p@ && e.meta() == self@[p@],
    {
        match self.find(p) {
            Some(i) => {
                proof { lemma_map_entry(self.entries@, i as int); }
                Some(&self.entries[i])
            },
            None => None,
        }
    }
}

/// `q` is an entry directly inside directory `dir`.
pub open spec fn is_child(q: Seq<char>, dir: Seq<char>) -> bool {
    q != root_path() && parent_path(q) == dir
}

pub open spec fn render_line(e: &Entry, below_root: bool) -> Seq<char> {
    e.path@ + (if e.kind == EntryKind::Directory && below_root { seq!['/'] } else { Seq::empty() }) + seq!['\n']
}

/// The listing of entries: each path on a line of its own, directories but
/// the first entry marked with a trailing `/`.
pub open spec fn rendered(s: Seq<Entry>) -> Seq<char>
    decreases s.len(),
{
    if s.len() == 0 {
        Seq::empty()
    } else {
        rendered(s.drop_last()) + render_line(&s.last(), s.len() > 1)
    }
}

/// The same paths stand at the same positions: the order of insertion is kept.
pub open spec fn same_order(a: Seq<Entry>, b: Seq<Entry>) -> bool {
    a.len() == b.len() && forall|i: int| 0 <= i < a.len() ==> (#[trigger] a[i]).path@ == b[i].path@
}

/// Why adding an entry at `p` is refused, if it is.
pub open spec fn insert_check(m: Map<Seq<char>, EntryView>, p: Seq<char>) -> Option<TreeError> {
    if !valid_path(p) {
        Some(TreeError::InvalidPath)
    } else if m.contains_key(p) {
        Some(TreeError::AlreadyExists)
    } else if !m.contains_key(parent_path(p)) {
        Some(TreeError::PathNotFound)
    } else if m[parent_path(p)].kind != EntryKind::Directory {
        Some(TreeError::NotADirectory)
    } else {
        None
    }
}

/// Why recording a file at `p` is refused, if it is.
pub open spec fn upsert_check(m: Map<Seq<char>, EntryView>, p: Seq<char>) -> Option<TreeError> {
    if valid_path(p) && m.contains_key(p) {
        if m[p].kind == EntryKind::Directory {
            Some(TreeError::AlreadyExists)
        } else {
            None
        }
    } else {
        insert_check(m, p)
    }
}

/// Why a move of `from` to `to` is refused, if it is.
pub open spec fn rename_check(m: Map<Seq<char>, EntryView>, from: Seq<char>, to: Seq<char>) -> Option<TreeError> {
    if !valid_path(to) {
        Some(TreeError::InvalidPath)
    } else if !m.contains_key(from) {
        Some(TreeError::PathNotFound)
    } else if from == root_path() {
        Some(TreeError::RootEntry)
    } else if m.contains_key(to) {
        Some(TreeError::AlreadyExists)
    } else if is_descendant(to, from) {
        Some(TreeError::InvalidPath)
    } else if !m.contains_key(parent_path(to)) {
        Some(TreeError::PathNotFound)
    } else if m[parent_path(to)].kind != EntryKind::Directory {
        Some(TreeError::NotADirectory)
    } else {
        None
    }
}

/// The tree after the subtree at `a` has moved to `b`.
pub open spec fn moved(m: Map<Seq<char>, EntryView>, a: Seq<char>, b: Seq<char>) -> Map<Seq<char>, EntryView> {
    Map::new(
        |q: Seq<char>|
            (m.contains_key(q) && !in_subtree(q, a)) || (in_subtree(q, b) && m.contains_key(rebase(q, b, a))),
        |q: Seq<char>|
            if in_subtree(q, b) {
                m[rebase(q, b, a)]
            } else {
                m[q]
            },
    )
}

/// Where a path of the tree goes when `a` moves to `b`.
pub open spec fn moved_path(q: Seq<char>, a: Seq<char>, b: Seq<char>) -> Seq<char> {
    if in_subtree(q, a) {
        rebase(q, a, b)
    } else {
        q
    }
}

/// Every directory above an entry of a well-formed tree is in the tree.
pub proof fn lemma_ancestor_present(s: Seq<Entry>, q: Seq<char>, b: Seq<char>)
    requires
        entries_wf(s),
        seq_has(s, q),
        valid_path(b),
        in_subtree(q, b),
    ensures
        seq_has(s, b),
    decreases q.len(),
{
    if q != b {
        let i = choose|i: int| 0 <= i < s.len() && #[trigger] s[i].path@ == q;
        assert(valid_path(s[i].path@));
        assert(q != root_path()) by {
            if q == root_path() {
                if b != root_path() {
                    assert(b.len() >= 2) by {
                        if b.len() == 1 {
                            assert(b =~= root_path());
                        }
                    }
                }
            }
        }
        assert(i != 0);
        let j = choose|j: int| 0 <= j < s.len() && #[trigger] s[j].path@ == parent_path(s[i].path@)
            && s[j].kind == EntryKind::Directory;
        lemma_parent_stays(q, b);
        lemma_parent(q);
        lemma_ancestor_present(s, parent_path(q), b);
    }
}

/// The first index of an entry at `p`.
pub fn find_path(s: &Vec<Entry>, p: &str) -> (r: Option<usize>)
    ensures
        r matches Some(i) ==> i < s@.len() && s@[i as int].path@ == p@,
        r is None <==> !seq_has(s@, p@),
{
    let mut i: usize = 0;
    while i < s.len()
        invariant
            i <= s@.len(),
            forall|j: int| 0 <= j < i ==> s@[j].path@ != p@,
        decreases s@.len() - i,
    {
        if str_eq(s[i].path.as_str(), p) {
            return Some(i);
        }
        i = i + 1;
    }
    None
}

/// Whether the entries form a well-formed tree.
pub fn check_records(s: &Vec<Entry>) -> (r: bool)
    ensures
        r == entries_wf(s@),
{
    let n = s.len();
    if n == 0 {
        return false;
    }
    proof { reveal_strlit("/"); }
    let root_ok = str_eq(s[0].path.as_str(), "/");
    assert("/"@ =~= root_path());
    if !root_ok || s[0].kind != EntryKind::Directory {
        return false;
    }
    let mut i: usize = 0;
    while i < n
        invariant
            n == s@.len(),
            i <= n,
            s@[0].path@ == root_path(),
            s@[0].kind == EntryKind::Directory,
            forall|a: int| 0 <= a < i ==> valid_path(#[trigger] s@[a].path@),
            forall|a: int, b: int| 0 <= a < i && 0 <= b < i && a != b ==> #[trigger] s@[a].path@ != #[trigger] s@[b].path@,
        decreases n - i,
    {
        if !check_path(s[i].path.as_str()) {
            return false;
        }
        let mut j: usize = 0;
        while j < i
            invariant
                n == s@.len(),
                j <= i < n,
                forall|b: int| 0 <= b < j ==> s@[b].path@ != s@[i as int].path@,
            decreases i - j,
        {
            if str_eq(s[j].path.as_str(), s[i].path.as_str()) {
                return false;
            }
            j = j + 1;
        }
        i = i + 1;
    }
    assert(unique_paths(s@));
    let mut i: usize = 1;
    while i < n
        invariant
            n == s@.len(),
            1 <= i <= n,
            unique_paths(s@),
            s@[0].path@ == root_path(),
            s@[0].kind == EntryKind::Directory,
            forall|a: int| 0 <= a < n ==> valid_path(#[trigger] s@[a].path@),
            forall|a: int| 0 < a < i ==> exists|b: int|
                0 <= b < s@.len() && #[trigger] s@[b].path@ == parent_path(#[trigger] s@[a].path@)
                    && s@[b].kind == EntryKind::Directory,
        decreases n - i,
    {
        let parent = parent_of(s[i].path.as_str());
        match find_path(s, parent.as_str()) {
            None => {
                return false;
            },
            Some(b) => {
                if s[b].kind != EntryKind::Directory {
                    assert forall|c: int| 0 <= c < s@.len() && #[trigger] s@[c].path@ == parent_path(s@[i as int].path@)
                        implies s@[c].kind != EntryKind::Directory by {
                        assert(c == b);
                    }
                    return false;
                }
            },
        }
        i = i + 1;
    }
    true
}

/// No directory holds two children of the same name.
pub open spec fn names_unique(m: Map<Seq<char>, EntryView>) -> bool {
    forall|a: Seq<char>, b: Seq<char>|
        #![trigger m.contains_key(a), m.contains_key(b)]
        m.contains_key(a) && m.contains_key(b) && a != root_path() && b != root_path() && parent_path(a)
            == parent_path(b) && basename(a) == basename(b) ==> a == b
}

/// The root is in the tree and is a directory.
pub open spec fn root_is_directory(m: Map<Seq<char>, EntryView>) -> bool {
    m.contains_key(root_path()) && m[root_path()].kind == EntryKind::Directory
}

/// Every entry but the root lies in a directory of the tree, so no file has
/// children.
pub open spec fn files_childless(m: Map<Seq<char>, EntryView>) -> bool {
    forall|q: Seq<char>|
        #![trigger m.contains_key(q)]
        m.contains_key(q) && q != root_path() ==> m.contains_key(parent_path(q)) && m[parent_path(q)].kind
            == EntryKind::Directory
}

/// A well-formed tree, which every tree operation and every reconciler
/// commit keeps, has unique names in each directory, a root directory, and
/// no file with children.
pub proof fn law_tree_invariants(t: Tree)
    requires
        t.wf(),
    ensures
        names_unique(t@),
        root_is_directory(t@),
        files_childless(t@),
{
    let s = t.entries@;
    lemma_map_entry(s, 0);
    assert forall|a: Seq<char>, b: Seq<char>|
        #![trigger t@.contains_key(a), t@.contains_key(b)]
        t@.contains_key(a) && t@.contains_key(b) && a != root_path() && b != root_path() && parent_path(a)
            == parent_path(b) && basename(a) == basename(b) implies a == b by {
        let i = choose|i: int| 0 <= i < s.len() && #[trigger] s[i].path@ == a;
        let j = choose|j: int| 0 <= j < s.len() && #[trigger] s[j].path@ == b;
        assert(valid_path(s[i].path@));
        assert(valid_path(s[j].path@));
        lemma_join_parent_basename(a);
        lemma_join_parent_basename(b);
    }
    assert forall|q: Seq<char>|
        #![trigger t@.contains_key(q)]
        t@.contains_key(q) && q != root_path() implies t@.contains_key(parent_path(q)) && t@[parent_path(q)].kind
            == EntryKind::Directory by {
        let i = choose|i: int| 0 <= i < s.len() && #[trigger] s[i].path@ == q;
        assert(i != 0);
        let j = choose|j: int| 0 <= j < s.len() && #[trigger] s[j].path@ == parent_path(s[i].path@)
            && s[j].kind == EntryKind::Directory;
        lemma_map_entry(s, j);
    }
}

/// A snapshot of a well-formed tree reads back as the same tree.
pub proof fn law_snapshot_round_trip(t: Tree, records: Seq<Entry>)
    requires
        t.wf(),
        records.len() == t.entries@.len(),
        forall|i: int| 0 <= i < records.len() ==> (#[trigger] records[i]).path@ == t.entries@[i].path@
            && records[i].meta() == t.entries@[i].meta(),
    ensures
        entries_wf(records),
        seq_map(records) == t@,
{
    let s = t.entries@;
    assert forall|i: int| 0 < i < records.len() implies exists|j: int|
        0 <= j < records.len() && #[trigger] records[j].path@ == parent_path(#[trigger] records[i].path@)
            && records[j].kind == EntryKind::Directory by {
        let j = choose|j: int| 0 <= j < s.len() && #[trigger] s[j].path@ == parent_path(s[i].path@)
            && s[j].kind == EntryKind::Directory;
        assert(records[j].meta().kind == s[j].meta().kind);
    }
    assert(records[0].meta().kind == s[0].meta().kind);
    assert(unique_paths(records));
    assert forall|q: Seq<char>| #[trigger] seq_map(records).contains_key(q) <==> t@.contains_key(q) by {
        if seq_has(s, q) {
            let a = choose|a: int| 0 <= a < s.len() && #[trigger] s[a].path@ == q;
            assert(records[a].path@ == q);
        }
        if seq_has(records, q) {
            let a = choose|a: int| 0 <= a < records.len() && #[trigger] records[a].path@ == q;
            assert(s[a].path@ == q);
        }
    }
    assert forall|q: Seq<char>| seq_map(records).contains_key(q) implies #[trigger] seq_map(records)[q] == t@[q] by {
        let a = choose|a: int| 0 <= a < records.len() && #[trigger] records[a].path@ == q;
        lemma_map_entry(records, a);
        lemma_map_entry(s, a);
    }
    assert(seq_map(records) =~= t@);
}

/// With unique paths, the map holds each entry's own data.
pub proof fn lemma_map_entry(s: Seq<Entry>, i: int)
    requires
        0 <= i < s.len(),
        unique_paths(s),
    ensures
        seq_map(s).contains_key(s[i].path@),
        seq_map(s)[s[i].path@] == s[i].meta(),
{
    assert(seq_has(s, s[i].path@));
}

proof fn lemma_map_push(s: Seq<Entry>, e: Entry)
    requires
        unique_paths(s),
        !seq_has(s, e.path@),
    ensures
        unique_paths(s.push(e)),
        seq_map(s.push(e)) == seq_map(s).insert(e.path@, e.meta()),
{
    let t = s.push(e);
    assert forall|i: int| 0 <= i < s.len() implies #[trigger] t[i] == s[i] by {}
    assert(unique_paths(t));
    assert forall|q: Seq<char>| #[trigger] seq_map(t).contains_key(q) <==> seq_map(s).insert(e.path@, e.meta()).contains_key(q) by {
        if seq_has(s, q) {
            let i = choose|i: int| 0 <= i < s.len() && #[trigger] s[i].path@ == q;
            assert(t[i].path@ == q);
        }
        if q == e.path@ {
            assert(t[s.len() as int].path@ == q);
        }
    }
    assert forall|q: Seq<char>| seq_map(t).contains_key(q) implies #[trigger] seq_map(t)[q] == seq_map(s).insert(e.path@, e.meta())[q] by {
        let i = choose|i: int| 0 <= i < t.len() && #[trigger] t[i].path@ == q;
        lemma_map_entry(t, i);
        if i < s.len() {
            lemma_map_entry(s, i);
        }
    }
    assert(seq_map(t) =~= seq_map(s).insert(e.path@, e.meta()));
}

/// Two sequences that agree on every path and on every entry but one.
proof fn lemma_map_same_paths(s: Seq<Entry>, t: Seq<Entry>, i: int)
    requires
        unique_paths(s),
        s.len() == t.len(),
        0 <= i < s.len(),
        forall|a: int| 0 <= a < t.len() ==> #[trigger] t[a].path@ == s[a].path@ && (a != i ==> t[a] == s[a]),
    ensures
        unique_paths(t),
        seq_map(t) == seq_map(s).insert(s[i].path@, t[i].meta()),
{
    assert(unique_paths(t));
    let target = seq_map(s).insert(s[i].path@, t[i].meta());
    assert forall|q: Seq<char>| #[trigger] seq_map(t).contains_key(q) <==> target.contains_key(q) by {
        if seq_has(s, q) {
            let a = choose|a: int| 0 <= a < s.len() && #[trigger] s[a].path@ == q;
            assert(t[a].path@ == q);
        }
        if seq_has(t, q) {
            let a = choose|a: int| 0 <= a < t.len() && #[trigger] t[a].path@ == q;
            assert(s[a].path@ == q);
        }
        if q == s[i].path@ {
            assert(t[i].path@ == q);
        }
    }
    assert forall|q: Seq<char>| seq_map(t).contains_key(q) implies #[trigger] seq_map(t)[q] == target[q] by {
        let a = choose|a: int| 0 <= a < t.len() && #[trigger] t[a].path@ == q;
        lemma_map_entry(t, a);
        lemma_map_entry(s, a);
    }
    assert(seq_map(t) =~= target);
}

} // verus!
