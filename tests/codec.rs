use next_client::activity::{parse_activity_id, NCState};
use next_client::message::{MessageCommand, NCSyncKind, NCSyncMessage};

fn msg(kind: NCSyncKind, r: bool, s: bool, t: &str) -> NCSyncMessage {
    NCSyncMessage { kind, is_recursive: r, use_stash: s, target: t.to_string() }
}

#[test]
fn envelope_exact_bytes() {
    let m = msg(NCSyncKind::Push, true, false, "/a");
    assert_eq!(m.to_bytes(), vec![0u8, 1, 0, 2, 0, 0, 0, b'/', b'a']);
    let m = msg(NCSyncKind::Pull, false, true, "");
    assert_eq!(m.to_bytes(), vec![1u8, 0, 1, 0, 0, 0, 0]);
}

#[test]
fn envelope_round_trip() {
    let m = msg(NCSyncKind::Pull, true, true, "/dir/ファイル.txt");
    let b = m.to_bytes();
    assert_eq!(b.len(), 7 + "/dir/ファイル.txt".len());
    let d = NCSyncMessage::from_bytes(&b).unwrap();
    assert_eq!(d.kind, NCSyncKind::Pull);
    assert!(d.is_recursive);
    assert!(d.use_stash);
    assert_eq!(d.target, "/dir/ファイル.txt");
}

#[test]
fn envelope_long_target_length_bytes() {
    let t = format!("/{}", "x".repeat(299));
    let b = msg(NCSyncKind::Push, false, false, &t).to_bytes();
    assert_eq!(&b[3..7], &[44u8, 1, 0, 0]);
    assert_eq!(NCSyncMessage::from_bytes(&b).unwrap().target, t);
}

#[test]
fn envelope_rejects_malformed() {
    assert!(NCSyncMessage::from_bytes(&[]).is_none());
    assert!(NCSyncMessage::from_bytes(&[0, 0, 0, 0, 0, 0]).is_none());
    // unknown kind
    assert!(NCSyncMessage::from_bytes(&[2, 0, 0, 0, 0, 0, 0]).is_none());
    // flag that is neither 0 nor 1
    assert!(NCSyncMessage::from_bytes(&[0, 2, 0, 0, 0, 0, 0]).is_none());
    assert!(NCSyncMessage::from_bytes(&[0, 0, 5, 0, 0, 0, 0]).is_none());
    // length does not agree with the payload
    assert!(NCSyncMessage::from_bytes(&[0, 0, 0, 2, 0, 0, 0, b'/']).is_none());
    assert!(NCSyncMessage::from_bytes(&[0, 0, 0, 1, 0, 0, 0, b'/', b'a']).is_none());
    // invalid UTF-8
    assert!(NCSyncMessage::from_bytes(&[0, 0, 0, 1, 0, 0, 0, 0xff]).is_none());
    assert!(NCSyncMessage::from_bytes(&[0, 0, 0, 0, 0, 0, 0]).is_some());
}

#[test]
fn command_expands_to_messages() {
    let c = MessageCommand::Pull { paths: vec!["*.txt".to_string()], recursive: true, stash: true };
    let targets = vec!["/r/a.txt".to_string(), "/r/b.txt".to_string()];
    let ms = c.into_messages(&targets);
    assert_eq!(ms.len(), 2);
    assert_eq!(ms[1].target, "/r/b.txt");
    assert_eq!(ms[0].kind, NCSyncKind::Pull);
    assert!(ms[0].is_recursive && ms[0].use_stash);
    let p = MessageCommand::Push { paths: vec![], recursive: false };
    let ms = p.into_messages(&targets);
    assert_eq!(ms[0].kind, NCSyncKind::Push);
    assert!(!ms[0].use_stash && !ms[0].is_recursive);
    assert_eq!(ms[0].target, "/r/a.txt");
}

fn st(s: &str) -> NCState {
    NCState { latest_activity_id: s.to_string() }
}

#[test]
fn activity_id_parsing() {
    assert_eq!(parse_activity_id("0"), Some(0));
    assert_eq!(parse_activity_id("12345"), Some(12345));
    assert_eq!(parse_activity_id("18446744073709551615"), Some(u64::MAX));
    assert_eq!(parse_activity_id("18446744073709551616"), None);
    assert_eq!(parse_activity_id(""), None);
    assert_eq!(parse_activity_id("12a"), None);
    assert_eq!(parse_activity_id("-1"), None);
}

#[test]
fn cursor_ordering() {
    assert!(st("10").eq_or_newer_than(&st("9")));
    assert!(!st("9").eq_or_newer_than(&st("10")));
    assert!(st("10").eq_or_newer_than(&st("10")));
    assert!(st("007").eq_or_newer_than(&st("7")));
    assert!(st("1").eq_or_newer_than(&st("")));
    assert!(!st("").eq_or_newer_than(&st("1")));
    assert!(st("abc").eq_or_newer_than(&st("abc")));
    assert!(!st("abc").eq_or_newer_than(&st("abd")));
    assert!(NCState::new().latest_activity_id.is_empty());
}

#[test]
fn cursor_only_advances_over_a_run() {
    let ids = ["", "3", "5", "5", "12"];
    for w in ids.windows(2) {
        assert!(st(w[1]).eq_or_newer_than(&st(w[0])));
    }
    assert!(st("12").eq_or_newer_than(&st("")));
}
