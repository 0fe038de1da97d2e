use codex_sessions::cli::{
    pick_snippets,
    compact_time, dim, effective_limit, human_ago, human_duration, resolve_session_path,
    id8, shorten_path, truncate_snippet, ResolveError,
};
use codex_sessions::clock::Instant;
use codex_sessions::hosts::{host_from_git_config, repo_host_from_url};
use codex_sessions::index::SessionEntry;
use codex_sessions::row_text::build_row_text;
use codex_sessions::rollout::GitInfo;
use codex_sessions::session_title;

fn entry(id: u128, path: &str) -> SessionEntry {
    SessionEntry {
        id,
        when: Instant { secs: 1756375200, nanos: 0 },
        timestamp: "2025-08-28T10:00:00Z".to_string(),
        name: None,
        day: 0,
        title: "Fix bug".to_string(),
        path: path.to_string(),
        cwd: None,
        git: None,
        approx_turns: 0,
        duration_secs: None,
        size_bytes: 0,
    }
}

#[test]
fn compact_time_drops_seconds_and_fraction() {
    assert_eq!(compact_time("2025-08-28T17:59:34.062Z"), "2025-08-28 17:59");
    assert_eq!(compact_time("2025-08-28T17:59:34Z"), "2025-08-28 17:59");
    assert_eq!(compact_time("2025-08-28"), "2025-08-28");
}

#[test]
fn durations_use_the_largest_unit() {
    assert_eq!(human_duration(0), "0s");
    assert_eq!(human_duration(89), "89s");
    assert_eq!(human_duration(90), "1m");
    assert_eq!(human_duration(5399), "89m");
    assert_eq!(human_duration(5400), "1h");
    assert_eq!(human_duration(172_799), "47h");
    assert_eq!(human_duration(172_800), "2d");
    assert_eq!(human_ago(125), "2m ago");
}

#[test]
fn dim_wraps_in_escape_codes() {
    assert_eq!(dim("x"), "\u{1b}[2mx\u{1b}[0m");
}

#[test]
fn default_limit_is_ten() {
    assert_eq!(effective_limit(None), 10);
    assert_eq!(effective_limit(Some(3)), 3);
}

#[test]
fn short_id_is_leading_lowercase_hex() {
    assert_eq!(id8(0x1a2b3c4d_0000_0000_0000_0000_000000ff), "1a2b3c4d");
    assert_eq!(id8(0xABCDEF01_0000_0000_0000_0000_00000000), "abcdef01");
}

#[test]
fn resolve_by_existing_path() {
    let r = resolve_session_path("/tmp/x.jsonl", true, &Vec::new());
    assert_eq!(r, Ok("/tmp/x.jsonl".to_string()));
}

#[test]
fn resolve_by_unique_prefix() {
    let s = vec![
        entry(0x1a2b3c4d_0000_0000_0000_0000_00000000, "/a"),
        entry(0x99990000_0000_0000_0000_0000_00000000, "/b"),
    ];
    assert_eq!(resolve_session_path("1a2b", false, &s), Ok("/a".to_string()));
}

#[test]
fn resolve_without_match() {
    let s = vec![entry(0x1a2b3c4d_0000_0000_0000_0000_00000000, "/a")];
    assert_eq!(resolve_session_path("ffff", false, &s), Err(ResolveError::NoMatch));
}

#[test]
fn resolve_ambiguous_prefix() {
    let s = vec![
        entry(0x1a2b3c4d_0000_0000_0000_0000_00000000, "/a"),
        entry(0x1a2b0000_0000_0000_0000_0000_00000000, "/b"),
    ];
    assert_eq!(resolve_session_path("1a2b", false, &s), Err(ResolveError::Ambiguous));
}

#[test]
fn home_is_shortened() {
    let home = Some("/home/u".to_string());
    assert_eq!(shorten_path("/home/u/x/y", &home), "~/x/y");
    assert_eq!(shorten_path("/other/x", &home), "/other/x");
    assert_eq!(shorten_path("/home/u/x", &None), "/home/u/x");
}

#[test]
fn snippets_are_trimmed_and_cut() {
    assert_eq!(truncate_snippet("  hi  "), "hi");
    let long = "y".repeat(61);
    assert_eq!(truncate_snippet(&long), format!("{}…", "y".repeat(59)));
    assert_eq!(truncate_snippet(&"z".repeat(60)), "z".repeat(60));
}

#[test]
fn repo_hosts_from_urls_and_ssh() {
    assert_eq!(repo_host_from_url("https://github.com/org/repo"), Some("github.com".to_string()));
    assert_eq!(repo_host_from_url("git@gitlab.com:org/repo.git"), Some("gitlab.com".to_string()));
    assert_eq!(repo_host_from_url("no host here"), None);
}

#[test]
fn git_config_prefers_origin() {
    let cfg = "[remote \"upstream\"]\n\turl = https://up.example.org/r\n[remote \"origin\"]\n\turl = git@github.com:me/r.git\n";
    assert_eq!(host_from_git_config(cfg), Some("github.com".to_string()));
    let only = "[remote \"fork\"]\n  url = https://fork.example.org/r";
    assert_eq!(host_from_git_config(only), Some("fork.example.org".to_string()));
    assert_eq!(host_from_git_config("[core]\n"), None);
}

#[test]
fn row_text_shows_time_id_title_and_badges() {
    let mut e = entry(0x1a2b3c4d_0000_0000_0000_0000_00000000, "/home/u/s/r.jsonl");
    e.approx_turns = 3;
    e.duration_secs = Some(120);
    e.git = Some(GitInfo {
        branch: Some("main".to_string()),
        commit_hash: Some("0123456789".to_string()),
        repository_url: Some("https://github.com/o/r".to_string()),
    });
    let (a, b) = build_row_text(&e, &Some("/home/u".to_string()));
    assert_eq!(a, "2025-08-28 10:00  1a2b3c4d  Fix bug   [main] #3  2m");
    assert_eq!(b, "github.com 0123456 ~/s/r.jsonl");
}

#[test]
fn title_cell_set_and_get() {
    let mut c = session_title::cell();
    assert_eq!(session_title::get(&c), None);
    session_title::set(&mut c, "T".to_string());
    assert_eq!(session_title::get(&c), Some("T".to_string()));
}

#[test]
fn snippets_pick_first_user_and_last_assistant() {
    let msgs = vec![
        ("assistant".to_string(), "early".to_string()),
        ("user".to_string(), "  first question ".to_string()),
        ("user".to_string(), "second question".to_string()),
        ("assistant".to_string(), "final answer".to_string()),
        ("system".to_string(), "ignored".to_string()),
    ];
    assert_eq!(pick_snippets(&msgs), ("first question".to_string(), "final answer".to_string()));
    assert_eq!(pick_snippets(&Vec::new()), (String::new(), String::new()));
}
