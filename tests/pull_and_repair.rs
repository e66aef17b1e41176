use next_client::cancel::CancelRegistry;
use next_client::events::{LocalEvent, LocalEventKind, RemoteEvent};
use next_client::exclude::ExcludeList;
use next_client::reconcile::{plan_remote_batch, RemoteAction};
use next_client::refresh::plan_refresh;
use next_client::repair::{plan_soft_repair, remote_touched, Replay};
use next_client::tree::{Entry, EntryKind, Tree};

const NOW: u64 = 100;
const DEADLINE: u64 = 200;

fn s(x: &str) -> String {
    x.to_string()
}

fn tree() -> Tree {
    let mut t = Tree::new();
    t.insert(s("/a.txt"), EntryKind::File, Some(s("e1")), Some(3)).unwrap();
    t.insert(s("/d"), EntryKind::Directory, None, None).unwrap();
    t.insert(s("/d/b.txt"), EntryKind::File, Some(s("e2")), Some(1)).unwrap();
    t.insert(s("/d/old.txt"), EntryKind::File, Some(s("e4")), Some(1)).unwrap();
    t
}

fn file(p: &str, etag: &str) -> Entry {
    Entry { path: s(p), kind: EntryKind::File, etag: Some(s(etag)), size: None }
}

fn dir(p: &str) -> Entry {
    Entry { path: s(p), kind: EntryKind::Directory, etag: None, size: None }
}

fn describe(actions: &[RemoteAction]) -> Vec<String> {
    actions
        .iter()
        .map(|a| match a {
            RemoteAction::Echo => s("echo"),
            RemoteAction::Excluded => s("excluded"),
            RemoteAction::Download(p) => format!("get {}", p),
            RemoteAction::MakeLocalDir(p) => format!("mkdir {}", p),
            RemoteAction::RemoveLocal(p) => format!("rm {}", p),
            RemoteAction::MoveLocal(a, b) => format!("mv {} {}", a, b),
        })
        .collect()
}

#[test]
fn pull_brings_subtree_in_line() {
    let t = tree();
    let listing = vec![dir("/d"), file("/d/b.txt", "e2b"), dir("/d/sub"), file("/d/sub/c.txt", "e5")];
    let plan = plan_refresh(&t, "/d", &listing, true);
    assert_eq!(describe(&plan), vec!["get /d/b.txt", "mkdir /d/sub", "get /d/sub/c.txt", "rm /d/old.txt"]);
    // only the direct children when not recursive
    let plan = plan_refresh(&t, "/d", &listing, false);
    assert_eq!(describe(&plan), vec!["get /d/b.txt", "mkdir /d/sub", "rm /d/old.txt"]);
    // nothing to do when the listing matches
    let same = vec![dir("/d"), file("/d/b.txt", "e2"), file("/d/old.txt", "e4")];
    assert!(plan_refresh(&t, "/d", &same, true).is_empty());
    assert!(plan_refresh(&t, "d", &listing, true).is_empty());
}

#[test]
fn batch_is_planned_in_server_order() {
    let mut reg = CancelRegistry::new();
    reg.l2nc.record(s("/c.txt"), Some(s("e3")), DEADLINE);
    let ex = ExcludeList::parse("*.tmp");
    let batch = vec![
        RemoteEvent::FileCreated { path: s("/c.txt"), etag: s("e3"), size: None, is_dir: false },
        RemoteEvent::FileChanged { path: s("/c.txt"), etag: s("e3"), size: None },
        RemoteEvent::FileDeleted { path: s("/x.tmp") },
        RemoteEvent::FileRenamed { from: s("/a.txt"), to: s("/b.txt"), etag: s("e9") },
    ];
    let plan = plan_remote_batch(&batch, &mut reg, &ex, NOW);
    // the suppression is used up by the first event, so the second is applied
    assert_eq!(describe(&plan), vec!["echo", "get /c.txt", "excluded", "mv /a.txt /b.txt"]);
    assert_eq!(reg.l2nc.get("/c.txt"), None);
}

#[test]
fn soft_repair_replays_or_stashes() {
    let queue = vec![
        LocalEvent { seq: 1, kind: LocalEventKind::Create(s("/x.txt")) },
        LocalEvent { seq: 2, kind: LocalEventKind::Modify(s("/y.txt")) },
        LocalEvent { seq: 3, kind: LocalEventKind::Rename(s("/p"), s("/q")) },
        LocalEvent { seq: 4, kind: LocalEventKind::Remove(s("/z")) },
    ];
    let remote = vec![
        RemoteEvent::FileCreated { path: s("/x.txt"), etag: s("e"), size: Some(2), is_dir: false },
        RemoteEvent::FileRenamed { from: s("/m"), to: s("/q"), etag: s("e") },
    ];
    assert!(remote_touched(&remote, "/q"));
    assert!(!remote_touched(&remote, "/y.txt"));
    let plan = plan_soft_repair(&queue, &remote, &vec![true, true, true, false]);
    assert_eq!(plan, vec![Replay::StashAndTakeRemote, Replay::Reapply, Replay::StashAndTakeRemote, Replay::Skip]);
}
