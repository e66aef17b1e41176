use next_client::activity::NCState;
use next_client::cancel::{CancelMap, CancelRegistry};
use next_client::control::{poll_emits, probe_transition, Command, Controller, NetworkStatus, Step};
use next_client::events::{LocalEvent, LocalEventKind, RemoteEvent};
use next_client::exclude::ExcludeList;
use next_client::reconcile::{
    commit_download, commit_local_move, commit_local_removal, commit_remote_move, commit_remote_removal,
    commit_upload, plan_local_event, plan_remote_event, LocalAction, RemoteAction,
};
use next_client::remote::{classify_status, FailureCounter, RemoteError};
use next_client::repair::{
    conflict_outcome, decide_replay, recover_failed_put, resolve_conflict, stash_path, Overwrite, PutRecovery, Replay,
};
use next_client::tree::{EntryKind, Tree};

const NOW: u64 = 100;
const DEADLINE: u64 = 200;

fn s(x: &str) -> String {
    x.to_string()
}

fn tree() -> Tree {
    let mut t = Tree::new();
    t.insert(s("/a.txt"), EntryKind::File, Some(s("e1")), Some(3)).unwrap();
    t.insert(s("/d"), EntryKind::Directory, None, None).unwrap();
    t.insert(s("/d/b.txt"), EntryKind::File, Some(s("e2")), Some(1)).unwrap();
    t
}

fn local(kind: LocalEventKind) -> LocalEvent {
    LocalEvent { seq: 1, kind }
}

#[test]
fn cancel_map_take_and_evict() {
    let mut m = CancelMap::new();
    m.record(s("/a"), Some(s("k")), DEADLINE);
    assert_eq!(m.get("/a"), Some(Some(s("k"))));
    m.record(s("/a"), Some(s("k2")), DEADLINE);
    assert_eq!(m.tokens.len(), 1);
    assert!(!m.take_if_matches("/a", &Some(s("k")), NOW));
    // the stale token was evicted
    assert_eq!(m.get("/a"), None);
    m.record(s("/b"), None, DEADLINE);
    assert!(m.take_if_matches("/b", &None, NOW));
    assert!(!m.take_if_matches("/b", &None, NOW));
    m.record(s("/c"), None, DEADLINE);
    m.clear();
    assert_eq!(m.get("/c"), None);
}

#[test]
fn expired_tokens_suppress_nothing() {
    let mut m = CancelMap::new();
    m.record(s("/a"), Some(s("k")), 50);
    assert!(!m.take_if_matches("/a", &Some(s("k")), NOW));
    m.record(s("/a"), Some(s("k")), NOW);
    assert!(m.take_if_matches("/a", &Some(s("k")), NOW));
    m.record(s("/old"), None, 10);
    m.record(s("/new"), None, DEADLINE);
    m.evict_expired(NOW);
    assert_eq!(m.get("/old"), None);
    assert_eq!(m.get("/new"), Some(None));
    assert_eq!(m.tokens.len(), 1);
    let mut reg = CancelRegistry::new();
    reg.nc2l.record(s("/x"), None, 10);
    reg.l2nc.record(s("/y"), None, DEADLINE);
    reg.evict_expired(NOW);
    assert_eq!(reg.nc2l.get("/x"), None);
    assert_eq!(reg.l2nc.get("/y"), Some(None));
}

#[test]
fn exclude_file_parsing() {
    let ex = ExcludeList::parse("# comment\n*.tmp\n\n/build/*\r\n#x\nlast");
    assert_eq!(ex.patterns, vec![s("*.tmp"), s("/build/*"), s("last")]);
    assert!(ex.is_excluded("/x.tmp"));
    assert!(ex.is_excluded("/build/out.o"));
    assert!(!ex.is_excluded("/src/main.rs"));
    assert!(ExcludeList::parse("").patterns.is_empty());
    assert!(!ExcludeList::new().is_excluded("/a"));
    // a pattern that does not compile matches nothing
    assert!(!ExcludeList::parse("[").is_excluded("["));
}

#[test]
fn local_create_echo() {
    let mut t = tree();
    let mut reg = CancelRegistry::new();
    let ex = ExcludeList::new();
    let ev = local(LocalEventKind::Create(s("/c.txt")));
    let a = plan_local_event(&ev, &Some(s("hash-hi")), false, &mut reg, &ex, NOW);
    assert!(matches!(a, LocalAction::PutFile(ref p) if p == "/c.txt"));
    commit_upload(&mut t, &mut reg, s("/c.txt"), s("e3"), Some(3), DEADLINE).unwrap();
    assert_eq!(reg.l2nc.get("/c.txt"), Some(Some(s("e3"))));
    assert_eq!(t.get("/c.txt").unwrap().etag.as_deref(), Some("e3"));
    let rev = RemoteEvent::FileCreated { path: s("/c.txt"), etag: s("e3"), size: Some(3), is_dir: false };
    assert!(matches!(plan_remote_event(&rev, &mut reg, &ex, NOW), RemoteAction::Echo));
    assert_eq!(reg.l2nc.get("/c.txt"), None);
}

#[test]
fn remote_edit_echo() {
    let mut t = tree();
    let mut reg = CancelRegistry::new();
    let ex = ExcludeList::new();
    let rev = RemoteEvent::FileChanged { path: s("/a.txt"), etag: s("e1b"), size: Some(5) };
    let a = plan_remote_event(&rev, &mut reg, &ex, NOW);
    assert!(matches!(a, RemoteAction::Download(ref p) if p == "/a.txt"));
    commit_download(&mut t, &mut reg, s("/a.txt"), s("e1b"), Some(5), s("e1b"), DEADLINE).unwrap();
    assert_eq!(reg.nc2l.get("/a.txt"), Some(Some(s("e1b"))));
    assert_eq!(t.get("/a.txt").unwrap().size, Some(5));
    let before = t.entries.len();
    let ev = local(LocalEventKind::Modify(s("/a.txt")));
    assert!(matches!(plan_local_event(&ev, &Some(s("e1b")), false, &mut reg, &ex, NOW), LocalAction::Echo));
    assert_eq!(t.entries.len(), before);
    // a second report is no longer suppressed
    assert!(matches!(plan_local_event(&ev, &Some(s("e1b")), false, &mut reg, &ex, NOW), LocalAction::PutFile(_)));
}

#[test]
fn conflict_remote_wins() {
    let mut t = tree();
    let mut reg = CancelRegistry::new();
    let ex = ExcludeList::new();
    let rev = RemoteEvent::FileChanged { path: s("/a.txt"), etag: s("e1c"), size: Some(3) };
    assert!(matches!(plan_remote_event(&rev, &mut reg, &ex, NOW), RemoteAction::Download(_)));
    commit_download(&mut t, &mut reg, s("/a.txt"), s("e1c"), Some(3), s("hash-BBB"), DEADLINE).unwrap();
    // the local edit ("AAA") is not the written content: it is not an echo
    let ev = local(LocalEventKind::Modify(s("/a.txt")));
    assert!(matches!(plan_local_event(&ev, &Some(s("hash-AAA")), false, &mut reg, &ex, NOW), LocalAction::PutFile(_)));
    // the server refuses the stale put
    assert_eq!(classify_status(409), Some(RemoteError::Conflict));
    assert_eq!(recover_failed_put(RemoteError::Conflict), PutRecovery::StashAndTakeRemote);
    assert_eq!(conflict_outcome(true), Overwrite::StashFirst);
    assert_eq!(conflict_outcome(false), Overwrite::Overwrite);
    assert_eq!(resolve_conflict(true, true), Overwrite::StashFirst);
    assert_eq!(resolve_conflict(true, false), Overwrite::Overwrite);
    assert_eq!(resolve_conflict(false, true), Overwrite::Overwrite);
    assert_eq!(stash_path("/a.txt"), ".stash/a.txt");
    assert_eq!(t.get("/a.txt").unwrap().etag.as_deref(), Some("e1c"));
}

#[test]
fn offline_buffering() {
    let mut c = Controller::new(NCState { latest_activity_id: s("10") }, NetworkStatus::Connect);
    c.cancel.nc2l.record(s("/a.txt"), None, DEADLINE);
    assert!(matches!(c.step(Command::NetworkDisconnect), Step::Idle));
    assert_eq!(c.network, NetworkStatus::Disconnect);
    assert_eq!(c.cancel.nc2l.get("/a.txt"), None);
    let st = c.step(Command::LocEvent(local(LocalEventKind::Create(s("/x.txt")))));
    assert!(matches!(st, Step::Queued));
    assert_eq!(c.offline_queue.len(), 1);
    match c.step(Command::NetworkConnect) {
        Step::SoftRepair(q) => {
            assert_eq!(q.len(), 1);
            assert!(matches!(q[0].kind, LocalEventKind::Create(ref p) if p == "/x.txt"));
        }
        other => panic!("unexpected {:?}", other),
    }
    assert!(c.offline_queue.is_empty());
    assert_eq!(decide_replay(true, true), Replay::StashAndTakeRemote);
    assert_eq!(decide_replay(false, true), Replay::Reapply);
    assert_eq!(decide_replay(false, false), Replay::Skip);
    assert!(matches!(c.finish_soft_repair(false), Step::Idle));
    assert_eq!(c.network, NetworkStatus::Connect);
    assert!(matches!(c.finish_soft_repair(true), Step::Exit { restart: true }));
}

#[test]
fn same_batch_twice_is_skipped() {
    let mut c = Controller::new(NCState { latest_activity_id: s("10") }, NetworkStatus::Connect);
    let batch = || vec![RemoteEvent::FileDeleted { path: s("/a.txt") }];
    let st = c.step(Command::NCEvents(batch(), NCState { latest_activity_id: s("11") }));
    let end = match st {
        Step::ApplyRemote(b, end) => {
            assert_eq!(b.len(), 1);
            end
        }
        other => panic!("unexpected {:?}", other),
    };
    // the cursor waits for the batch to complete
    assert_eq!(c.nc_state.latest_activity_id, "10");
    assert!(c.finish_remote_batch(end, true));
    assert_eq!(c.nc_state.latest_activity_id, "11");
    let st = c.step(Command::NCEvents(batch(), NCState { latest_activity_id: s("11") }));
    assert!(matches!(st, Step::StaleBatch));
    let st = c.step(Command::NCEvents(batch(), NCState { latest_activity_id: s("9") }));
    assert!(matches!(st, Step::StaleBatch));
    assert_eq!(c.nc_state.latest_activity_id, "11");
}

#[test]
fn failed_batch_keeps_cursor() {
    let mut c = Controller::new(NCState { latest_activity_id: s("10") }, NetworkStatus::Connect);
    let batch = vec![RemoteEvent::FileDeleted { path: s("/a.txt") }];
    let st = c.step(Command::NCEvents(batch, NCState { latest_activity_id: s("12") }));
    let end = match st {
        Step::ApplyRemote(_, end) => end,
        other => panic!("unexpected {:?}", other),
    };
    assert!(!c.finish_remote_batch(end, false));
    assert_eq!(c.nc_state.latest_activity_id, "10");
    // the same activities are delivered again and applied
    let again = vec![RemoteEvent::FileDeleted { path: s("/a.txt") }];
    let st = c.step(Command::NCEvents(again, NCState { latest_activity_id: s("12") }));
    assert!(matches!(st, Step::ApplyRemote(_, _)));
    assert!(!c.finish_remote_batch(NCState { latest_activity_id: s("9") }, true));
    assert_eq!(c.nc_state.latest_activity_id, "10");
}

#[test]
fn control_commands() {
    let mut c = Controller::new(NCState::new(), NetworkStatus::Connect);
    assert!(matches!(c.step(Command::UpdateExcFile), Step::Exit { restart: true }));
    assert!(matches!(c.step(Command::UpdateConfigFile), Step::Exit { restart: true }));
    assert!(matches!(c.step(Command::HardRepair), Step::HardRepair));
    assert!(matches!(c.step(Command::NormalRepair), Step::NormalRepair));
    assert!(matches!(c.step(Command::Terminate(false)), Step::Exit { restart: false }));
    assert!(matches!(c.step(Command::Error(s("boom"))), Step::Fail(ref e) if e == "boom"));
    assert!(matches!(c.step(Command::NetworkConnect), Step::Idle));
    let p = c.step(Command::PullEvent { target: s("/d"), is_recursive: true, stash: false });
    assert!(matches!(p, Step::Pull { ref target, is_recursive: true, stash: false } if target == "/d"));
    let e = c.step(Command::LocEvent(local(LocalEventKind::Remove(s("/a.txt")))));
    assert!(matches!(e, Step::Reconcile(_)));
    c.step(Command::NetworkDisconnect);
    let p = c.step(Command::PullEvent { target: s("/d"), is_recursive: true, stash: false });
    assert!(matches!(p, Step::PullRefused));
    let b = c.step(Command::NCEvents(vec![], NCState { latest_activity_id: s("5") }));
    assert!(matches!(b, Step::Unexpected));
    assert!(matches!(c.step(Command::NetworkDisconnect), Step::Idle));
}

#[test]
fn poller_and_probe() {
    let cur = NCState { latest_activity_id: s("10") };
    let ev = vec![RemoteEvent::FileDeleted { path: s("/a") }];
    assert!(poll_emits(&cur, &ev, &NCState { latest_activity_id: s("11") }));
    assert!(!poll_emits(&cur, &ev, &NCState { latest_activity_id: s("10") }));
    assert!(!poll_emits(&cur, &vec![], &NCState { latest_activity_id: s("11") }));
    assert!(probe_transition(true, true).is_none());
    assert!(matches!(probe_transition(false, true), Some(Command::NetworkConnect)));
    assert!(matches!(probe_transition(true, false), Some(Command::NetworkDisconnect)));
}

#[test]
fn excluded_paths_have_no_effect() {
    let mut reg = CancelRegistry::new();
    let ex = ExcludeList::parse("*.tmp");
    let ev = local(LocalEventKind::Create(s("/x.tmp")));
    assert!(matches!(plan_local_event(&ev, &Some(s("k")), false, &mut reg, &ex, NOW), LocalAction::Excluded));
    let ev = local(LocalEventKind::Rename(s("/a.tmp"), s("/b.tmp")));
    assert!(matches!(plan_local_event(&ev, &Some(s("k")), false, &mut reg, &ex, NOW), LocalAction::Excluded));
    let ev = local(LocalEventKind::Rename(s("/a.tmp"), s("/b.txt")));
    assert!(matches!(plan_local_event(&ev, &Some(s("k")), false, &mut reg, &ex, NOW), LocalAction::PutFile(ref p) if p == "/b.txt"));
    let ev = local(LocalEventKind::Rename(s("/a.txt"), s("/b.tmp")));
    assert!(matches!(plan_local_event(&ev, &None, false, &mut reg, &ex, NOW), LocalAction::RemoveRemote(ref p) if p == "/a.txt"));
    let rev = RemoteEvent::FileDeleted { path: s("/y.tmp") };
    assert!(matches!(plan_remote_event(&rev, &mut reg, &ex, NOW), RemoteAction::Excluded));
    let rev = RemoteEvent::FileRenamed { from: s("/a.tmp"), to: s("/b.tmp"), etag: s("e") };
    assert!(matches!(plan_remote_event(&rev, &mut reg, &ex, NOW), RemoteAction::Excluded));
}

#[test]
fn local_plans_for_each_kind() {
    let mut reg = CancelRegistry::new();
    let ex = ExcludeList::new();
    let ev = local(LocalEventKind::Create(s("/n")));
    assert!(matches!(plan_local_event(&ev, &Some(s("dir")), true, &mut reg, &ex, NOW), LocalAction::MakeRemoteDir(_)));
    assert!(matches!(plan_local_event(&ev, &None, false, &mut reg, &ex, NOW), LocalAction::Nothing));
    let ev = local(LocalEventKind::Modify(s("/n")));
    assert!(matches!(plan_local_event(&ev, &Some(s("dir")), true, &mut reg, &ex, NOW), LocalAction::Nothing));
    let ev = local(LocalEventKind::Remove(s("/n")));
    assert!(matches!(plan_local_event(&ev, &None, false, &mut reg, &ex, NOW), LocalAction::RemoveRemote(_)));
    let ev = local(LocalEventKind::Rename(s("/a"), s("/b")));
    assert!(matches!(plan_local_event(&ev, &Some(s("k")), false, &mut reg, &ex, NOW), LocalAction::MoveRemote(ref a, ref b) if a == "/a" && b == "/b"));
    // a rename that this client made locally is an echo
    reg.nc2l.record(s("/a"), None, DEADLINE);
    reg.nc2l.record(s("/b"), Some(s("k")), DEADLINE);
    assert!(matches!(plan_local_event(&ev, &Some(s("k")), false, &mut reg, &ex, NOW), LocalAction::Echo));
}

#[test]
fn remote_moves_and_removals() {
    let mut t = tree();
    let mut reg = CancelRegistry::new();
    let ex = ExcludeList::new();
    let rev = RemoteEvent::FileRenamed { from: s("/d"), to: s("/e"), etag: s("e7") };
    assert!(matches!(plan_remote_event(&rev, &mut reg, &ex, NOW), RemoteAction::MoveLocal(_, _)));
    commit_local_move(&mut t, &mut reg, s("/d"), s("/e"), s("e7"), s("dir"), DEADLINE).unwrap();
    assert_eq!(t.get("/e").unwrap().etag.as_deref(), Some("e7"));
    assert!(t.get("/e/b.txt").is_some());
    assert_eq!(reg.nc2l.get("/d"), Some(None));
    assert_eq!(reg.nc2l.get("/e"), Some(Some(s("dir"))));
    assert!(commit_local_removal(&mut t, &mut reg, s("/e"), DEADLINE));
    assert!(t.get("/e/b.txt").is_none());
    assert!(!commit_local_removal(&mut t, &mut reg, s("/e"), DEADLINE));
    commit_remote_move(&mut t, &mut reg, s("/a.txt"), s("/z.txt"), s("e8"), DEADLINE).unwrap();
    assert_eq!(reg.l2nc.get("/z.txt"), Some(Some(s("e8"))));
    let echo = RemoteEvent::FileRenamed { from: s("/a.txt"), to: s("/z.txt"), etag: s("e8") };
    assert!(matches!(plan_remote_event(&echo, &mut reg, &ex, NOW), RemoteAction::Echo));
    assert!(commit_remote_removal(&mut t, &mut reg, s("/z.txt"), DEADLINE));
    assert_eq!(t.entries.len(), 1);
    assert!(commit_remote_move(&mut t, &mut reg, s("/gone"), s("/x"), s("e"), DEADLINE).is_err());
}

#[test]
fn status_classes_and_failure_threshold() {
    assert_eq!(classify_status(200), None);
    assert_eq!(classify_status(207), None);
    assert_eq!(classify_status(404), Some(RemoteError::NotFound));
    assert_eq!(classify_status(401), Some(RemoteError::Unauthorized));
    assert_eq!(classify_status(403), Some(RemoteError::Unauthorized));
    assert_eq!(classify_status(412), Some(RemoteError::Conflict));
    assert_eq!(classify_status(503), Some(RemoteError::Server));
    let mut f = FailureCounter::new(3);
    assert!(!f.record(Some(RemoteError::Transport)));
    assert!(!f.record(Some(RemoteError::Server)));
    assert!(!f.record(Some(RemoteError::NotFound)));
    assert!(f.record(Some(RemoteError::Transport)));
    assert!(!f.record(None));
    assert_eq!(recover_failed_put(RemoteError::Transport), PutRecovery::Requeue);
    assert_eq!(recover_failed_put(RemoteError::Server), PutRecovery::Requeue);
    assert_eq!(recover_failed_put(RemoteError::NotFound), PutRecovery::ForgetPath);
    assert_eq!(recover_failed_put(RemoteError::Unauthorized), PutRecovery::Fail);
    assert_eq!(f.consecutive, 0);
}
