use zenith::history::History;

#[test]
fn load_missing_file_gives_empty() {
    // a missing file reads as empty text
    let h = History::from_contents("");
    assert_eq!(h.suggest("ls"), None);
}

#[test]
fn suggest_most_recent_first() {
    let mut h = History::new();
    h.append("git status");
    h.append("git stash");
    assert_eq!(h.suggest("git st"), Some("git stash"));
    h.append("git status"); // moves to most-recent
    assert_eq!(h.suggest("git st"), Some("git status"));
}

#[test]
fn suggest_skips_exact_match_and_empty_prefix() {
    let mut h = History::new();
    h.append("ls");
    assert_eq!(h.suggest("ls"), None);
    assert_eq!(h.suggest(""), None);
    assert_eq!(h.suggest("   "), None);
    assert_eq!(h.suggest("l"), Some("ls"));
}

#[test]
fn append_dedups_and_ignores_empty() {
    let mut h = History::new();
    h.append("make build");
    h.append("  ");
    h.append("make build");
    assert_eq!(h.len(), 1);
}

#[test]
fn persists_across_reload_with_0600() {
    // the file text written after an append reads back to the same entries
    let mut h = History::new();
    h.append("cargo test");
    let text = h.file_contents();
    assert_eq!(text, "cargo test\n");
    let h2 = History::from_contents(&text);
    assert_eq!(h2.suggest("cargo"), Some("cargo test"));
}

#[test]
fn file_text_lines_are_read_as_entries() {
    let h = History::from_contents("ls\r\n\n   \ngit log\n  spaced  ");
    assert_eq!(h.len(), 3);
    assert_eq!(h.entry(0), "ls");
    assert_eq!(h.entry(1), "git log");
    assert_eq!(h.entry(2), "  spaced  ");
    assert_eq!(h.suggest("git"), Some("git log"));
}

#[test]
fn append_trims_and_reports_what_it_recorded() {
    let mut h = History::new();
    assert!(h.append("  echo hi  "));
    assert!(!h.append(" \t "));
    assert_eq!(h.len(), 1);
    assert_eq!(h.entry(0), "echo hi");
    assert_eq!(h.suggest("echo"), Some("echo hi"));
}

#[test]
fn recorded_command_is_suggested_for_its_prefixes() {
    let mut h = History::new();
    h.append("cargo build --release");
    h.append("ls -la");
    assert_eq!(h.suggest("cargo b"), Some("cargo build --release"));
    assert_eq!(h.suggest("cargo build --release"), None);
    assert_eq!(h.suggest("x"), None);
}

#[test]
fn history_keeps_only_the_newest_lines() {
    let mut h = History::new();
    for i in 0..10_005 {
        h.append(&format!("cmd {}", i));
    }
    assert_eq!(h.log_len(), 10_000);
    assert_eq!(h.entry(0), "cmd 5");
    assert_eq!(h.entry(9_999), "cmd 10004");
}

#[test]
fn file_text_round_trips_the_log() {
    let mut h = History::new();
    h.append("a");
    h.append("b c");
    h.append("a");
    let text = h.file_contents();
    assert_eq!(text, "a\nb c\na\n");
    let h2 = History::from_contents(&text);
    assert_eq!(h2.log_len(), 3);
    assert_eq!(h2.len(), 2);
    assert_eq!(h2.entry(0), "a");
    assert_eq!(h2.entry(1), "b c");
    assert_eq!(h2.entry(2), "a");
}

#[test]
fn frequency_beats_recency() {
    let mut h = History::new();
    h.append("git status");
    h.append("git status");
    h.append("git status");
    h.append("git stash");
    assert_eq!(h.suggest("git st"), Some("git status"));
}

#[test]
fn equal_scores_go_to_the_latest_use() {
    let mut h = History::new();
    h.append("foo bar");
    h.append("foo baz");
    assert_eq!(h.suggest("foo"), Some("foo baz"));
    h.append("foo bar");
    assert_eq!(h.suggest("foo"), Some("foo bar"));
}

#[test]
fn old_uses_weigh_less_than_recent_ones() {
    // "old cmd" used 3 times more than 5000 lines back (weight 1 each),
    // "new cmd" used twice among the last 1000 lines (weight 4 each)
    let mut h = History::new();
    for _ in 0..3 {
        h.append("old cmd");
    }
    for i in 0..5_000 {
        h.append(&format!("filler {}", i));
    }
    h.append("new cmd");
    h.append("new cmd");
    assert_eq!(h.suggest("old"), Some("old cmd"));
    assert_eq!(h.suggest("n"), Some("new cmd"));
    assert_eq!(h.suggest("o"), Some("old cmd"));
    // a prefix both complete: 8 for "new cmd" against 3 for "old cmd"
    let mut g = History::new();
    for _ in 0..3 {
        g.append("x old");
    }
    for i in 0..5_000 {
        g.append(&format!("filler {}", i));
    }
    g.append("x new");
    g.append("x new");
    assert_eq!(g.suggest("x "), Some("x new"));
}

#[test]
fn appending_a_repeat_logs_each_use() {
    let mut h = History::new();
    h.append("make build");
    h.append("make build");
    assert_eq!(h.log_len(), 2);
    assert_eq!(h.len(), 1);
}

#[test]
fn truncation_drops_the_oldest_lines() {
    let mut text = String::from("ancient cmd\n");
    for i in 0..10_000 {
        text.push_str(&format!("filler {}\n", i));
    }
    let mut h = History::from_contents(&text);
    assert_eq!(h.log_len(), 10_001);
    h.append("new cmd");
    assert_eq!(h.log_len(), 10_000);
    assert_eq!(h.suggest("ancient"), None);
}

#[test]
fn empty_history_file_text_is_a_single_newline() {
    let h = History::new();
    assert_eq!(h.file_contents(), "\n");
}
