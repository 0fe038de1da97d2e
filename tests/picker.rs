use codex_sessions::clock::Instant;
use codex_sessions::index::SessionEntry;
use codex_sessions::picker::{backup_path, Command, Hint, Key, Mode, PickerState, Preview};
use codex_sessions::picker_rows::{
    build_rows, day_header, day_label, free_text_query, move_down, move_up, settle_selection,
    DayLabel, Row,
};
use codex_sessions::rollout::GitInfo;

fn entry(id: u128, secs: i64, day: i32, title: &str, path: &str, cwd: &str) -> SessionEntry {
    SessionEntry {
        id,
        when: Instant { secs, nanos: 0 },
        timestamp: String::new(),
        name: None,
        day,
        title: title.to_string(),
        path: path.to_string(),
        cwd: Some(cwd.to_string()),
        git: Some(GitInfo {
            branch: Some("Feature-X".to_string()),
            commit_hash: Some("abcdef0123".to_string()),
            repository_url: Some("https://GitHub.com/org/repo".to_string()),
        }),
        approx_turns: 0,
        duration_secs: None,
        size_bytes: 0,
    }
}

fn sample() -> Vec<SessionEntry> {
    vec![
        entry(1, 300, 100, "Alpha", "/s/rollout-a.jsonl", "/here"),
        entry(2, 200, 100, "Beta", "/s/rollout-b.jsonl", "/elsewhere"),
        entry(3, 100, 99, "Gamma", "/s/rollout-c.jsonl", "/here"),
    ]
}

fn picker() -> PickerState {
    PickerState::new(sample(), "/here".to_string(), 100, 10)
}

fn selected_title(p: &PickerState) -> String {
    match p.rows[p.selected.unwrap()] {
        Row::Entry(k) => p.entries[k].title.clone(),
        Row::Header(_) => panic!("selection on a header"),
    }
}

#[test]
fn rows_group_by_day_with_headers() {
    let p = picker();
    assert_eq!(
        p.rows,
        vec![
            Row::Header(DayLabel::Today),
            Row::Entry(0),
            Row::Entry(1),
            Row::Header(DayLabel::Yesterday),
            Row::Entry(2),
        ]
    );
    assert_eq!(p.selected, Some(1));
}

#[test]
fn day_labels_and_text() {
    assert_eq!(day_label(10, 10), DayLabel::Today);
    assert_eq!(day_label(9, 10), DayLabel::Yesterday);
    assert_eq!(day_label(8, 10), DayLabel::Date(8));
    assert_eq!(day_header(10, 10), "Today");
    assert_eq!(day_header(9, 10), "Yesterday");
    assert_eq!(day_header(739491, 1), "2025-08-28");
}

#[test]
fn movement_skips_headers_and_wraps() {
    let rows = vec![
        Row::Header(DayLabel::Today),
        Row::Entry(0),
        Row::Header(DayLabel::Yesterday),
        Row::Entry(1),
        Row::Header(DayLabel::Date(3)),
        Row::Entry(2),
    ];
    let mut i = 1;
    let mut seen = Vec::new();
    for _ in 0..6 {
        i = move_down(&rows, i);
        assert!(matches!(rows[i], Row::Entry(_)));
        seen.push(i);
    }
    assert_eq!(seen, vec![3, 5, 1, 3, 5, 1]);
    assert_eq!(move_up(&rows, 1), 5);
    assert_eq!(move_up(&rows, 5), 3);
}

#[test]
fn settling_never_lands_on_a_header() {
    let rows = vec![Row::Header(DayLabel::Today), Row::Entry(0), Row::Entry(1)];
    assert_eq!(settle_selection(&rows, Some(0)), Some(1));
    assert_eq!(settle_selection(&rows, Some(9)), Some(2));
    assert_eq!(settle_selection(&Vec::new(), Some(0)), None);
}

#[test]
fn up_down_keys_move_the_selection() {
    let mut p = picker();
    p.handle_key(Key::Down);
    assert_eq!(selected_title(&p), "Beta");
    p.handle_key(Key::Down);
    assert_eq!(selected_title(&p), "Gamma");
    p.handle_key(Key::Down);
    assert_eq!(selected_title(&p), "Alpha");
    p.handle_key(Key::Up);
    assert_eq!(selected_title(&p), "Gamma");
    p.handle_key(Key::Home);
    assert_eq!(selected_title(&p), "Alpha");
    p.handle_key(Key::End);
    assert_eq!(selected_title(&p), "Gamma");
}

#[test]
fn filter_is_case_insensitive_and_clears_on_escape() {
    let mut p = picker();
    p.handle_key(Key::Char('/'));
    assert_eq!(p.mode, Mode::Filtering);
    for c in "BET".chars() {
        p.handle_key(Key::Char(c));
    }
    assert_eq!(p.rows, vec![Row::Header(DayLabel::Today), Row::Entry(1)]);
    p.handle_key(Key::Down);
    assert_eq!(p.selected, Some(1));
    p.handle_key(Key::Esc);
    assert_eq!(p.mode, Mode::Browsing);
    assert_eq!(p.rows.len(), 5);
}

#[test]
fn filter_searches_branch_and_host() {
    let mut p = picker();
    p.handle_key(Key::Char('/'));
    for c in "github.com".chars() {
        p.handle_key(Key::Char(c));
    }
    assert_eq!(p.rows.len(), 5);
    p.handle_key(Key::Backspace);
    p.handle_key(Key::Enter);
    assert_eq!(p.mode, Mode::Browsing);
    assert_eq!(p.filter_text.iter().collect::<String>(), "github.co");
    p.handle_key(Key::Char('/'));
    for c in "nomatch".chars() {
        p.handle_key(Key::Char(c));
    }
    assert!(p.rows.is_empty());
    assert_eq!(p.selected, None);
}

#[test]
fn rename_commits_through_append() {
    let mut p = picker();
    p.handle_key(Key::Char('r'));
    assert_eq!(p.mode, Mode::Renaming);
    for c in "New".chars() {
        p.handle_key(Key::Char(c));
    }
    match p.handle_key(Key::Enter) {
        Command::AppendName { path, name } => {
            assert_eq!(path, "/s/rollout-a.jsonl");
            assert_eq!(name, "New");
            p.finish_rename(&path, &name, true);
        }
        _ => panic!("expected an append"),
    }
    assert_eq!(p.mode, Mode::Browsing);
    assert_eq!(p.entries[0].title, "New");
}

#[test]
fn empty_rename_and_failed_rename_change_nothing() {
    let mut p = picker();
    p.handle_key(Key::Char('r'));
    assert!(matches!(p.handle_key(Key::Enter), Command::Nothing));
    p.finish_rename("/s/rollout-a.jsonl", "X", false);
    assert_eq!(p.entries[0].title, "Alpha");
    assert!(matches!(p.hint, Some(Hint::RenameFailed)));
}

#[test]
fn delete_then_undo_restores_the_entry() {
    let mut p = picker();
    p.handle_key(Key::Char('d'));
    assert_eq!(p.mode, Mode::ConfirmDelete);
    let path = match p.handle_key(Key::Enter) {
        Command::MoveToBackup { path } => path,
        _ => panic!("expected a move"),
    };
    assert_eq!(path, "/s/rollout-a.jsonl");
    let backup = backup_path(&path, 0);
    p.finish_delete(path.clone(), backup.clone(), true);
    assert_eq!(p.entries.len(), 2);
    assert!(p.entries.iter().all(|e| e.path != path));
    let (original, back) = match p.handle_key(Key::Char('u')) {
        Command::Restore { original, backup } => (original, backup),
        _ => panic!("expected a restore"),
    };
    assert_eq!(original, path);
    assert_eq!(back, backup);
    assert!(p.last_deleted.is_none());
    p.finish_undo(Some(entry(1, 300, 100, "Alpha", "/s/rollout-a.jsonl", "/here")));
    let titles: Vec<&str> = p.entries.iter().map(|e| e.title.as_str()).collect();
    assert_eq!(titles, vec!["Alpha", "Beta", "Gamma"]);
    assert!(matches!(p.handle_key(Key::Char('u')), Command::Nothing));
}

#[test]
fn a_second_delete_replaces_the_undo_slot() {
    let mut p = picker();
    p.finish_delete("/s/rollout-a.jsonl".to_string(), "/b1".to_string(), true);
    p.finish_delete("/s/rollout-b.jsonl".to_string(), "/b2".to_string(), true);
    let slot = p.last_deleted.clone().unwrap();
    assert_eq!(slot, ("/s/rollout-b.jsonl".to_string(), "/b2".to_string()));
}

#[test]
fn escape_cancels_a_pending_delete() {
    let mut p = picker();
    p.handle_key(Key::Char('d'));
    assert!(matches!(p.handle_key(Key::Esc), Command::Nothing));
    assert_eq!(p.mode, Mode::Browsing);
    assert_eq!(p.entries.len(), 3);
}

#[test]
fn backup_paths_are_numbered_on_collision() {
    assert_eq!(backup_path("/s/rollout-a.jsonl", 0), "/s/rollout-a.deleted");
    assert_eq!(backup_path("/s/rollout-a.jsonl", 1), "/s/rollout-a.deleted.1");
    assert_eq!(backup_path("/s/rollout-a.jsonl", 12), "/s/rollout-a.deleted.12");
    assert_eq!(backup_path("/s.d/notes", 0), "/s.d/notes.deleted");
    assert_eq!(backup_path("/s/.hidden", 0), "/s/.hidden.deleted");
}

#[test]
fn resume_in_same_directory_is_immediate() {
    let mut p = picker();
    match p.handle_key(Key::Enter) {
        Command::Resume(path) => assert_eq!(path, "/s/rollout-a.jsonl"),
        _ => panic!("expected resume"),
    }
}

#[test]
fn resume_from_other_directory_asks_once() {
    let mut p = picker();
    p.handle_key(Key::Down);
    assert!(matches!(p.handle_key(Key::Enter), Command::Nothing));
    assert_eq!(p.mode, Mode::ConfirmResume);
    match p.handle_key(Key::Enter) {
        Command::Resume(path) => assert_eq!(path, "/s/rollout-b.jsonl"),
        _ => panic!("expected resume"),
    }
}

#[test]
fn escape_drops_confirmation_then_cancels() {
    let mut p = picker();
    p.handle_key(Key::Down);
    p.handle_key(Key::Enter);
    assert!(matches!(p.handle_key(Key::Cancel), Command::Nothing));
    assert_eq!(p.mode, Mode::Browsing);
    assert!(matches!(p.handle_key(Key::Esc), Command::Cancel));
}

#[test]
fn movement_is_disabled_while_typing() {
    let mut p = picker();
    p.handle_key(Key::Char('r'));
    let before = p.selected;
    p.handle_key(Key::Down);
    assert_eq!(p.selected, before);
}

#[test]
fn resize_keeps_selection_and_scrolls_it_into_view() {
    let mut p = PickerState::new(sample(), "/none".to_string(), 100, 10);
    p.handle_key(Key::End);
    p.resize(2);
    assert_eq!(p.selected, Some(4));
    assert_eq!(p.scroll_top, 3);
}

#[test]
fn build_rows_with_filter_matches_path() {
    let entries = sample();
    let filter: Vec<char> = " ROLLOUT-C ".chars().collect();
    assert_eq!(build_rows(&entries, &filter, 100), vec![Row::Header(DayLabel::Yesterday), Row::Entry(2)]);
}

#[test]
fn highlight_marks_free_text_in_titles_only() {
    let mut p = picker();
    p.handle_key(Key::Char('/'));
    for c in "AA".chars() {
        p.handle_key(Key::Char(c));
    }
    assert!(p.rows.is_empty());
    p.handle_key(Key::Esc);
    p.handle_key(Key::Char('/'));
    for c in "al branch:x".chars() {
        p.handle_key(Key::Char(c));
    }
    assert!(p.rows.is_empty());
    let mut q = picker();
    q.handle_key(Key::Char('/'));
    for c in "al".chars() {
        q.handle_key(Key::Char(c));
    }
    assert_eq!(q.rows, vec![Row::Header(DayLabel::Today), Row::Entry(0)]);
    assert_eq!(q.highlight(1), Some(vec![0, 1]));
    assert_eq!(q.highlight(0), None);
}

#[test]
fn free_text_drops_tokens_with_colons() {
    let f: Vec<char> = "  fix  repo:x   bug ".chars().collect();
    let q: String = free_text_query(&f).into_iter().collect();
    assert_eq!(q, "fix bug");
}

#[test]
fn footer_follows_mode_then_hint_then_selection() {
    let mut p = picker();
    assert_eq!(p.preview(), Preview::Selected(0));
    p.handle_key(Key::Char('/'));
    assert_eq!(p.preview(), Preview::FilterHelp);
    p.handle_key(Key::Esc);
    p.handle_key(Key::Char('r'));
    assert_eq!(p.preview(), Preview::RenameHelp);
    p.handle_key(Key::Esc);
    p.handle_key(Key::Char('y'));
    assert_eq!(p.preview(), Preview::Hint);
    p.handle_key(Key::Char('d'));
    assert_eq!(p.preview(), Preview::ConfirmDelete);
}

#[test]
fn initial_selection_prefers_current_directory() {
    let p = PickerState::new(sample(), "/elsewhere".to_string(), 100, 10);
    assert_eq!(selected_title(&p), "Beta");
    let q = PickerState::new(sample(), "/nowhere".to_string(), 100, 10);
    assert_eq!(selected_title(&q), "Alpha");
}

#[test]
fn page_keys_take_window_many_steps() {
    let mut p = PickerState::new(sample(), "/here".to_string(), 100, 2);
    p.handle_key(Key::PageDown);
    assert_eq!(selected_title(&p), "Gamma");
    p.handle_key(Key::PageUp);
    assert_eq!(selected_title(&p), "Alpha");
}

#[test]
fn short_id_hint_and_rename_keeps_state_name() {
    let mut p = picker();
    p.handle_key(Key::Char('i'));
    assert!(matches!(p.hint, Some(Hint::ShortIdCopied(1))));
    p.finish_rename("/s/rollout-b.jsonl", "Renamed", true);
    assert_eq!(p.entries[1].title, "Renamed");
    assert_eq!(p.entries[1].name.as_deref(), Some("Renamed"));
}
