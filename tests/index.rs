use codex_sessions::index::{
    discover, is_rollout_file_name, read_entry, resolve_title, sort_entries_newest_first,
    ScannedFile,
};
use codex_sessions::rollout::{GitInfo, RolloutLine, SessionMeta, SessionStateSnapshot};

fn header(id: u128, ts: &str, instructions: Option<&str>) -> RolloutLine {
    RolloutLine::Header(SessionMeta {
        id,
        timestamp: ts.to_string(),
        cwd: "/work".to_string(),
        instructions: instructions.map(|s| s.to_string()),
        git: Some(GitInfo {
            branch: Some("main".to_string()),
            commit_hash: None,
            repository_url: None,
        }),
    })
}

fn named(name: &str) -> RolloutLine {
    RolloutLine::State(SessionStateSnapshot { name: Some(name.to_string()) })
}

fn file(name: &str, lines: Vec<RolloutLine>) -> ScannedFile {
    ScannedFile {
        path: format!("/root/sessions/{name}"),
        file_name: name.to_string(),
        lines,
        size_bytes: 10,
        modified_secs: None,
    }
}

fn titles(files: &Vec<ScannedFile>, limit: usize) -> Vec<String> {
    discover(files, limit).into_iter().map(|e| e.title).collect()
}

#[test]
fn title_prefers_non_blank_name() {
    let t = resolve_title(&Some("  Named ".to_string()), &Some("Fix".to_string()));
    assert_eq!(t, "  Named ");
}

#[test]
fn title_falls_back_to_first_non_blank_instruction_line() {
    let t = resolve_title(&Some("   ".to_string()), &Some("\n  \n  Fix the bug  \nmore".to_string()));
    assert_eq!(t, "Fix the bug");
}

#[test]
fn title_is_clipped_with_marker() {
    let long = "x".repeat(100);
    let t = resolve_title(&None, &Some(long));
    assert_eq!(t.chars().count(), 81);
    assert!(t.ends_with('…'));
    assert_eq!(t, format!("{}…", "x".repeat(80)));
}

#[test]
fn title_placeholder_without_name_or_instructions() {
    assert_eq!(resolve_title(&None, &None), "(no title)");
    assert_eq!(resolve_title(&None, &Some(" \n ".to_string())), "(no title)");
}

#[test]
fn rollout_file_names() {
    assert!(is_rollout_file_name("rollout-2025-08-28.jsonl"));
    assert!(!is_rollout_file_name("rollout-2025.json"));
    assert!(!is_rollout_file_name("session-1.jsonl"));
    assert!(!is_rollout_file_name("rollout-1.jsonl.deleted"));
}

#[test]
fn timestamps_parse_to_seconds() {
    let t = read_entry(&file("rollout-a.jsonl", vec![header(1, "2025-08-28T10:00:00Z", None)])).unwrap();
    assert_eq!(t.when.secs, 1756375200);
    assert_eq!(t.when.nanos, 0);
    let u = read_entry(&file("rollout-a.jsonl", vec![header(1, "2025-08-28T10:00:00.5+02:00", None)])).unwrap();
    assert_eq!(u.when.secs, 1756368000);
    assert_eq!(u.when.nanos, 500_000_000);
    assert!(read_entry(&file("rollout-a.jsonl", vec![header(1, "yesterday", None)])).is_none());
}

#[test]
fn non_header_first_line_is_excluded() {
    let f = file("rollout-a.jsonl", vec![RolloutLine::Malformed, named("x")]);
    assert!(read_entry(&f).is_none());
}

#[test]
fn unparseable_timestamp_is_excluded() {
    let f = file("rollout-a.jsonl", vec![header(1, "not a time", Some("Hi"))]);
    assert!(read_entry(&f).is_none());
    assert!(discover(&vec![f], 10).is_empty());
}

#[test]
fn stateless_file_appears_with_instruction_title() {
    let f = file("rollout-a.jsonl", vec![header(1, "2025-08-28T10:00:00Z", Some("Do it")), RolloutLine::Opaque]);
    let e = read_entry(&f).unwrap();
    assert_eq!(e.title, "Do it");
    assert_eq!(e.approx_turns, 1);
    let g = file("rollout-b.jsonl", vec![header(2, "2025-08-28T10:00:00Z", None)]);
    assert_eq!(read_entry(&g).unwrap().title, "(no title)");
}

#[test]
fn entry_duration_counts_from_creation() {
    let mut f = file("rollout-a.jsonl", vec![header(1, "2025-08-28T10:00:00Z", None)]);
    f.modified_secs = Some(1756375200 + 125);
    assert_eq!(read_entry(&f).unwrap().duration_secs, Some(125));
    f.modified_secs = Some(1756375200 - 5);
    assert_eq!(read_entry(&f).unwrap().duration_secs, Some(0));
}

#[test]
fn discovery_is_strictly_newest_first() {
    let files = vec![
        file("rollout-1.jsonl", vec![header(1, "2025-08-01T00:00:00Z", Some("one"))]),
        file("rollout-3.jsonl", vec![header(3, "2025-08-03T00:00:00Z", Some("three"))]),
        file("rollout-2.jsonl", vec![header(2, "2025-08-02T00:00:00Z", Some("two"))]),
        file("notes.txt", vec![header(4, "2025-08-04T00:00:00Z", Some("four"))]),
    ];
    assert_eq!(titles(&files, 10), vec!["three", "two", "one"]);
    assert_eq!(titles(&files, 2), vec!["three", "two"]);
}

#[test]
fn equal_timestamps_keep_discovery_order() {
    let files = vec![
        file("rollout-a.jsonl", vec![header(1, "2025-08-01T00:00:00Z", Some("a"))]),
        file("rollout-b.jsonl", vec![header(2, "2025-08-01T00:00:00Z", Some("b"))]),
    ];
    let sorted = sort_entries_newest_first(discover(&files, 10));
    let t: Vec<String> = sorted.into_iter().map(|e| e.title).collect();
    assert_eq!(t, vec!["a", "b"]);
}

#[test]
fn end_to_end_discover_and_rename() {
    let mut files = vec![
        file("rollout-alpha.jsonl", vec![header(1, "2025-08-28T10:00:00Z", None), named("Alpha")]),
        file("rollout-fix.jsonl", vec![header(2, "2025-08-28T12:00:00Z", Some("Fix bug"))]),
    ];
    assert_eq!(titles(&files, 10), vec!["Fix bug", "Alpha"]);
    files[0].lines.push(named("Beta"));
    assert_eq!(titles(&files, 10), vec!["Fix bug", "Beta"]);
}

#[test]
fn discovered_entry_carries_last_name_and_timestamp() {
    let files = vec![file(
        "rollout-a.jsonl",
        vec![
            header(1, "2025-08-28T10:00:00Z", Some("Fix")),
            named("n1"),
            RolloutLine::Opaque,
            named("n2"),
            RolloutLine::Malformed,
            named("n3"),
            RolloutLine::Opaque,
        ],
    )];
    let v = discover(&files, 10);
    assert_eq!(v.len(), 1);
    assert_eq!(v[0].name.as_deref(), Some("n3"));
    assert_eq!(v[0].title, "n3");
    assert_eq!(v[0].timestamp, "2025-08-28T10:00:00Z");
    assert_eq!(v[0].approx_turns, 2);
}
