use next_client::paths::{check_path, child_path, parent_of, within};
use next_client::persist::{init_from_walk, resume, PublicResource, Resume};
use next_client::activity::NCState;
use next_client::tree::{EntryKind, Tree, TreeError};

fn fresh_init_tree() -> Tree {
    let mut t = Tree::new();
    t.insert("/a.txt".to_string(), EntryKind::File, Some("e1".to_string()), Some(3)).unwrap();
    t.insert("/d".to_string(), EntryKind::Directory, None, None).unwrap();
    t.insert("/d/b.txt".to_string(), EntryKind::File, Some("e2".to_string()), Some(1)).unwrap();
    t
}

#[test]
fn path_rules() {
    assert!(check_path("/"));
    assert!(check_path("/a/b.txt"));
    assert!(!check_path(""));
    assert!(!check_path("a"));
    assert!(!check_path("/a/"));
    assert!(!check_path("/a//b"));
    assert_eq!(parent_of("/a/b.txt"), "/a");
    assert_eq!(parent_of("/a"), "/");
    assert!(within("/d/b.txt", "/d"));
    assert!(within("/d", "/d"));
    assert!(!within("/db", "/d"));
    assert!(within("/x", "/"));
    assert_eq!(child_path("/", "a"), "/a");
    assert_eq!(child_path("/a", "b.txt"), "/a/b.txt");
}

#[test]
fn directory_children_in_order() {
    let mut t = fresh_init_tree();
    t.insert("/d/c.txt".to_string(), EntryKind::File, None, None).unwrap();
    assert_eq!(t.children_of("/"), vec![1, 2]);
    assert_eq!(t.children_of("/d"), vec![3, 4]);
    assert!(t.children_of("/a.txt").is_empty());
}

#[test]
fn fresh_init_snapshot_holds_both_files() {
    let t = fresh_init_tree();
    let a = t.get("/a.txt").unwrap();
    assert_eq!(a.etag.as_deref(), Some("e1"));
    assert_eq!(a.size, Some(3));
    let b = t.get("/d/b.txt").unwrap();
    assert_eq!(b.etag.as_deref(), Some("e2"));
    assert_eq!(b.size, Some(1));
    let pr = PublicResource::new(t, NCState { latest_activity_id: "42".to_string() });
    let snap = pr.snapshot();
    assert_eq!(snap.latest_activity_id, "42");
    let paths: Vec<&str> = snap.entries.iter().map(|e| e.path.as_str()).collect();
    assert_eq!(paths, vec!["/", "/a.txt", "/d", "/d/b.txt"]);
}

#[test]
fn names_and_listing() {
    let t = fresh_init_tree();
    assert_eq!(t.get("/d/b.txt").unwrap().name(), "b.txt");
    assert_eq!(t.get("/").unwrap().name(), "");
    assert_eq!(t.render_tree(), "/\n/a.txt\n/d/\n/d/b.txt\n");
}

#[test]
fn fresh_init_from_walk() {
    let walk = fresh_init_tree().to_records();
    let (pr, snap) = init_from_walk(walk, "77".to_string()).unwrap();
    assert_eq!(pr.nc_state.latest_activity_id, "77");
    assert_eq!(snap.latest_activity_id, "77");
    let paths: Vec<&str> = snap.entries.iter().map(|e| e.path.as_str()).collect();
    assert_eq!(paths, vec!["/", "/a.txt", "/d", "/d/b.txt"]);
    assert_eq!(snap.entries[1].etag.as_deref(), Some("e1"));
    assert_eq!(snap.entries[3].size, Some(1));
    let mut bad = fresh_init_tree().to_records();
    bad.remove(0);
    assert!(matches!(init_from_walk(bad, "77".to_string()), Err(TreeError::Corrupt)));
}

#[test]
fn insertion_order_is_kept() {
    let mut t = fresh_init_tree();
    t.insert("/d/c.txt".to_string(), EntryKind::File, None, None).unwrap();
    t.upsert_file("/a.txt".to_string(), Some("e1b".to_string()), None).unwrap();
    t.rename("/d", "/z").unwrap();
    let paths: Vec<&str> = t.entries.iter().map(|e| e.path.as_str()).collect();
    assert_eq!(paths, vec!["/", "/a.txt", "/z", "/z/b.txt", "/z/c.txt"]);
}

#[test]
fn insert_errors() {
    let mut t = fresh_init_tree();
    assert_eq!(t.insert("x".to_string(), EntryKind::File, None, None), Err(TreeError::InvalidPath));
    assert_eq!(t.insert("/a.txt".to_string(), EntryKind::File, None, None), Err(TreeError::AlreadyExists));
    assert_eq!(t.insert("/q/z".to_string(), EntryKind::File, None, None), Err(TreeError::PathNotFound));
    assert_eq!(t.insert("/a.txt/z".to_string(), EntryKind::File, None, None), Err(TreeError::NotADirectory));
    assert_eq!(t.entries.len(), 4);
}

#[test]
fn upsert_and_set_meta() {
    let mut t = fresh_init_tree();
    t.upsert_file("/a.txt".to_string(), Some("e1b".to_string()), Some(5)).unwrap();
    assert_eq!(t.get("/a.txt").unwrap().etag.as_deref(), Some("e1b"));
    assert_eq!(t.get("/a.txt").unwrap().size, Some(5));
    assert_eq!(t.upsert_file("/d".to_string(), None, None), Err(TreeError::AlreadyExists));
    t.upsert_file("/d/new.txt".to_string(), Some("e9".to_string()), None).unwrap();
    assert_eq!(t.entries.len(), 5);
    assert_eq!(t.set_meta("/nope", None, None), Err(TreeError::PathNotFound));
}

#[test]
fn remove_takes_subtree() {
    let mut t = fresh_init_tree();
    assert!(t.remove("/").is_none());
    assert!(t.remove("/zzz").is_none());
    let e = t.remove("/d").unwrap();
    assert_eq!(e.path, "/d");
    assert!(t.get("/d/b.txt").is_none());
    assert!(t.get("/a.txt").is_some());
    assert_eq!(t.entries.len(), 2);
}

#[test]
fn rename_moves_subtree() {
    let mut t = fresh_init_tree();
    t.rename("/d", "/e").unwrap();
    assert!(t.get("/d").is_none());
    assert!(t.get("/d/b.txt").is_none());
    assert_eq!(t.get("/e/b.txt").unwrap().etag.as_deref(), Some("e2"));
    assert_eq!(t.get("/e").unwrap().kind, EntryKind::Directory);
    t.rename("/a.txt", "/e/a2.txt").unwrap();
    assert_eq!(t.get("/e/a2.txt").unwrap().size, Some(3));
    assert_eq!(t.entries.len(), 4);
}

#[test]
fn rename_errors_leave_tree_unchanged() {
    let mut t = fresh_init_tree();
    assert_eq!(t.rename("/a.txt", "/missing/a.txt"), Err(TreeError::PathNotFound));
    assert_eq!(t.rename("/nope", "/x"), Err(TreeError::PathNotFound));
    assert_eq!(t.rename("/", "/x"), Err(TreeError::RootEntry));
    assert_eq!(t.rename("/a.txt", "/d"), Err(TreeError::AlreadyExists));
    assert_eq!(t.rename("/d", "/d/sub"), Err(TreeError::InvalidPath));
    assert_eq!(t.rename("/d", "/a.txt/sub"), Err(TreeError::NotADirectory));
    assert_eq!(t.rename("/d", "bad"), Err(TreeError::InvalidPath));
    assert_eq!(t.entries.len(), 4);
    assert!(t.get("/a.txt").is_some());
}

#[test]
fn snapshot_round_trip() {
    let t = fresh_init_tree();
    let records = t.to_records();
    let back = Tree::from_records(records).unwrap();
    assert_eq!(back.entries.len(), 4);
    assert_eq!(back.get("/d/b.txt").unwrap().etag.as_deref(), Some("e2"));
    assert_eq!(back.get("/a.txt").unwrap().size, Some(3));
}

#[test]
fn corrupt_snapshot_is_refused() {
    let t = fresh_init_tree();
    let mut records = t.to_records();
    records.remove(2); // drop "/d", leaving "/d/b.txt" without its directory
    assert!(matches!(Tree::from_records(records), Err(TreeError::Corrupt)));
    assert!(matches!(Tree::from_records(Vec::new()), Err(TreeError::Corrupt)));
    let mut dup = fresh_init_tree().to_records();
    let again = fresh_init_tree().to_records().remove(1);
    dup.push(again);
    assert!(matches!(Tree::from_records(dup), Err(TreeError::Corrupt)));
}

#[test]
fn restart_resumes_from_snapshot() {
    let pr = PublicResource::new(fresh_init_tree(), NCState { latest_activity_id: "42".to_string() });
    let snap = pr.snapshot();
    match resume(Some(snap), false) {
        Resume::Loaded(p) => {
            assert_eq!(p.nc_state.latest_activity_id, "42");
            assert!(p.root.get("/d/b.txt").is_some());
        }
        _ => panic!("expected the snapshot to load"),
    }
    assert!(matches!(resume(None, true), Resume::NeedWalk));
    assert!(matches!(resume(None, false), Resume::Offline));
}
