use msv_supervisor::control::{anchor_message_text, decode_path, identity_message_text, parse_identity};

#[test]
fn ready_message_reads_back() {
    let text = identity_message_text("READY", 41, 41, "macos-libproc:1:2");
    assert_eq!(text, "READY 41 41 macos-libproc:1:2");
    let id = parse_identity(&text, "READY").unwrap();
    assert_eq!((id.pid, id.pgid, id.generation.as_str()), (41, 41, "macos-libproc:1:2"));
    assert!(id.journal.is_none());
}

#[test]
fn anchor_message_carries_the_journal_path() {
    let text = anchor_message_text(7, 41, "g", b"/tmp/a b.jsonl");
    assert_eq!(text, "ANCHOR 7 41 g 2f746d702f6120622e6a736f6e6c");
    let id = parse_identity(&text, "ANCHOR").unwrap();
    assert_eq!(id.journal, Some(b"/tmp/a b.jsonl".to_vec()));
}

#[test]
fn malformed_identity_messages_are_refused_with_reasons() {
    assert_eq!(parse_identity("HELLO 1 1 g", "READY").unwrap_err(), "expected READY control message");
    assert_eq!(parse_identity("READY", "READY").unwrap_err(), "missing proxy PID");
    assert_eq!(parse_identity("READY x 1 g", "READY").unwrap_err(), "invalid proxy PID");
    assert_eq!(parse_identity("READY 1", "READY").unwrap_err(), "missing target PGID");
    assert_eq!(parse_identity("READY 1 y g", "READY").unwrap_err(), "invalid target PGID");
    assert_eq!(parse_identity("READY 1 1", "READY").unwrap_err(), "missing proxy generation");
    assert_eq!(parse_identity("READY 0 1 g", "READY").unwrap_err(), "invalid target group identity");
    assert_eq!(parse_identity("READY 1 1 g 00", "READY").unwrap_err(), "unexpected detached journal path");
    assert_eq!(parse_identity("ANCHOR 1 1 g", "ANCHOR").unwrap_err(), "missing detached journal path");
    assert_eq!(
        parse_identity("ANCHOR 1 1 g 0", "ANCHOR").unwrap_err(),
        "invalid detached journal path encoding"
    );
}

#[test]
fn journal_paths_decode_from_hex() {
    assert_eq!(decode_path("2f61").unwrap(), b"/a".to_vec());
    assert_eq!(decode_path("").unwrap(), Vec::<u8>::new());
    assert_eq!(decode_path("zz").unwrap_err(), "invalid detached journal path encoding");
}
