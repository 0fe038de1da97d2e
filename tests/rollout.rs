use codex_sessions::rollout::{
    complete_lines_of, encode_state_line, fold_state, read_session_header_and_state, ReadError,
    RolloutLine, SessionMeta, SessionStateSnapshot,
};

fn meta(id: u128, ts: &str) -> SessionMeta {
    SessionMeta {
        id,
        timestamp: ts.to_string(),
        cwd: "/work".to_string(),
        instructions: None,
        git: None,
    }
}

fn state(name: Option<&str>) -> RolloutLine {
    RolloutLine::State(SessionStateSnapshot { name: name.map(|s| s.to_string()) })
}

#[test]
fn fold_takes_last_name() {
    let lines = vec![state(Some("a")), state(Some("b")), state(Some("c"))];
    assert_eq!(fold_state(&lines, 0).name.as_deref(), Some("c"));
}

#[test]
fn fold_ignores_interleaved_opaque_records() {
    let lines = vec![
        RolloutLine::Opaque,
        state(Some("a")),
        RolloutLine::Opaque,
        state(Some("b")),
        RolloutLine::Malformed,
        RolloutLine::Opaque,
    ];
    assert_eq!(fold_state(&lines, 0).name.as_deref(), Some("b"));
}

#[test]
fn fold_keeps_name_when_later_record_lacks_it() {
    let lines = vec![state(Some("keep")), state(None)];
    assert_eq!(fold_state(&lines, 0).name.as_deref(), Some("keep"));
}

#[test]
fn read_header_and_state_folds_after_header() {
    let lines = vec![
        RolloutLine::Header(meta(7, "2025-08-28T10:00:00Z")),
        state(Some("x")),
        RolloutLine::Opaque,
        state(Some("y")),
    ];
    let (m, st) = read_session_header_and_state(&lines).unwrap();
    assert_eq!(m.id, 7);
    assert_eq!(st.name.as_deref(), Some("y"));
}

#[test]
fn read_empty_log_is_an_error() {
    let lines: Vec<RolloutLine> = Vec::new();
    assert_eq!(read_session_header_and_state(&lines).err(), Some(ReadError::Empty));
}

#[test]
fn read_log_without_header_is_an_error() {
    let lines = vec![RolloutLine::Malformed, state(Some("x"))];
    assert_eq!(read_session_header_and_state(&lines).err(), Some(ReadError::NotAHeader));
}

#[test]
fn encode_state_line_escapes_and_terminates() {
    let line = encode_state_line(&SessionStateSnapshot { name: Some("say \"hi\"\n".to_string()) });
    assert_eq!(line, "{\"record_type\":\"state\",\"name\":\"say \\\"hi\\\"\\n\"}\n");
    let bare = encode_state_line(&SessionStateSnapshot { name: None });
    assert_eq!(bare, "{\"record_type\":\"state\"}\n");
}

#[test]
fn appends_add_one_line_each_and_keep_the_header() {
    let header = "{\"id\":\"x\"}\n".to_string();
    let mut text = header.clone();
    for n in ["one", "two", "three"] {
        text.push_str(&encode_state_line(&SessionStateSnapshot { name: Some(n.to_string()) }));
    }
    let lines = complete_lines_of(&text);
    assert_eq!(lines.len(), 4);
    assert_eq!(lines[0], "{\"id\":\"x\"}");
    assert!(text.starts_with(&header));
}

#[test]
fn torn_final_line_is_not_a_line() {
    let text = "{\"id\":\"x\"}\n{\"record_type\":\"state\",\"name\":\"a\"}\n{\"record_ty";
    let lines = complete_lines_of(text);
    assert_eq!(lines, vec!["{\"id\":\"x\"}".to_string(), "{\"record_type\":\"state\",\"name\":\"a\"}".to_string()]);
}
