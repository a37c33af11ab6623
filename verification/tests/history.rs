//! Shell history parsing, deduplication, and the two-tier history
//! ranking of the query engine.

use grab::history::{
    deduplicate_commands, parse_basic_history, parse_fish_history, parse_zsh_history,
    read_shell_histories, DeduplicatedCommand, HistoryEntry,
};
use grab::search::{SearchEngine, SearchItem};

fn entry(cmd: &str, ts: Option<u64>, dir: Option<&str>) -> HistoryEntry {
    HistoryEntry {
        command: cmd.to_string(),
        timestamp: ts,
        duration: None,
        working_directory: dir.map(|d| d.to_string()),
        exit_code: None,
    }
}

fn cmd_in(text: &str, ts: Option<u64>, folders: &[&str]) -> DeduplicatedCommand {
    DeduplicatedCommand {
        command: text.to_string(),
        folders: folders.iter().map(|f| f.to_string()).collect(),
        latest_timestamp: ts,
        total_executions: 1,
    }
}

#[test]
fn basic_history_plain_lines() {
    let entries = parse_basic_history("ls -la\n  git status  \n\n");
    assert_eq!(entries.len(), 2);
    assert_eq!(entries[0].command, "ls -la");
    assert_eq!(entries[0].timestamp, None);
    assert_eq!(entries[1].command, "git status");
}

#[test]
fn basic_history_timestamp_lines() {
    let entries = parse_basic_history("#1700000000\nmake build\nls\n");
    assert_eq!(entries.len(), 2);
    assert_eq!(entries[0].command, "make build");
    assert_eq!(entries[0].timestamp, Some(1700000000));
    assert_eq!(entries[1].command, "ls");
    assert_eq!(entries[1].timestamp, None);
}

#[test]
fn basic_history_malformed_timestamp_is_a_command() {
    let entries = parse_basic_history("#not-a-number\n");
    assert_eq!(entries.len(), 1);
    assert_eq!(entries[0].command, "#not-a-number");
}

#[test]
fn zsh_extended_format() {
    let entries = parse_zsh_history(": 1700000123:5;cargo test\nplain command\n");
    assert_eq!(entries.len(), 2);
    assert_eq!(entries[0].command, "cargo test");
    assert_eq!(entries[0].timestamp, Some(1700000123));
    assert_eq!(entries[0].duration, Some(5));
    assert_eq!(entries[1].command, "plain command");
    assert_eq!(entries[1].timestamp, None);
}

#[test]
fn zsh_extended_format_without_duration() {
    let entries = parse_zsh_history(": 1700000123;echo hi\n");
    assert_eq!(entries.len(), 1);
    assert_eq!(entries[0].timestamp, Some(1700000123));
    assert_eq!(entries[0].duration, None);
}

#[test]
fn zsh_extended_line_without_semicolon_is_dropped() {
    let entries = parse_zsh_history(": 17000:5 no semicolon here\n");
    assert!(entries.is_empty());
}

#[test]
fn fish_entries_with_metadata() {
    let text = "- cmd: git push\n  when: 1699999999\n  paths:\n    - /home/user/proj\n- cmd: ls\n";
    let entries = parse_fish_history(text);
    assert_eq!(entries.len(), 2);
    assert_eq!(entries[0].command, "git push");
    assert_eq!(entries[0].timestamp, Some(1699999999));
    assert_eq!(entries[0].working_directory, Some("/home/user/proj".to_string()));
    assert_eq!(entries[1].command, "ls");
    assert_eq!(entries[1].timestamp, None);
    assert_eq!(entries[1].working_directory, None);
}

#[test]
fn dedup_folds_repeated_commands() {
    let entries = vec![
        entry("make", Some(10), Some("/a")),
        entry("make", Some(30), Some("/b")),
        entry("make", Some(20), Some("/a")),
        entry("ls", None, None),
    ];
    let cmds = deduplicate_commands(entries);
    assert_eq!(cmds.len(), 2);
    assert_eq!(cmds[0].command, "make");
    assert_eq!(cmds[0].folders, vec!["/a".to_string(), "/b".to_string()]);
    assert_eq!(cmds[0].latest_timestamp, Some(30));
    assert_eq!(cmds[0].total_executions, 3);
    assert_eq!(cmds[1].command, "ls");
    assert_eq!(cmds[1].folders, vec!["unknown".to_string()]);
    assert_eq!(cmds[1].total_executions, 1);
}

#[test]
fn dedup_keeps_a_timestamp_over_none() {
    let cmds = deduplicate_commands(vec![
        entry("make", Some(10), None),
        entry("make", None, None),
    ]);
    assert_eq!(cmds[0].latest_timestamp, Some(10));
}

#[test]
fn read_histories_dispatches_by_shell() {
    let got = read_shell_histories(vec![
        ("bash".to_string(), "#123\nmake\n".to_string()),
        ("zsh".to_string(), ": 55:0;ls\n".to_string()),
        ("sh".to_string(), "\n\n".to_string()),
    ]);
    assert_eq!(got.len(), 2);
    assert_eq!(got[0].0, "bash");
    assert_eq!(got[0].1[0].command, "make");
    assert_eq!(got[0].1[0].latest_timestamp, Some(123));
    assert_eq!(got[1].0, "zsh");
    assert_eq!(got[1].1[0].command, "ls");
}

#[test]
fn history_affinity_tier_comes_first() {
    let engine = SearchEngine::new();
    // identical text, so identical fuzzy scores; only the folders differ
    let here = cmd_in("make test", None, &["/work"]);
    let elsewhere = cmd_in("make test", Some(999_999), &["/other"]);
    let histories = vec![("bash".to_string(), vec![elsewhere, here])];
    let r = engine.search(
        "make",
        &Vec::new(),
        &Vec::new(),
        &Vec::new(),
        &histories,
        &"/work".to_string(),
    );
    assert_eq!(r.shell_commands_results.len(), 2);
    match &r.shell_commands_results[0].item {
        SearchItem::HistoryCommand(c) => {
            assert_eq!(c.folders, vec!["/work".to_string()]);
        }
        _ => panic!("expected a history result"),
    }
    match &r.shell_commands_results[1].item {
        SearchItem::HistoryCommand(c) => {
            assert_eq!(c.folders, vec!["/other".to_string()]);
        }
        _ => panic!("expected a history result"),
    }
}

#[test]
fn history_recency_breaks_score_ties() {
    let engine = SearchEngine::new();
    let older = cmd_in("make test", Some(100), &["/work"]);
    let newer = cmd_in("make test", Some(200), &["/work"]);
    let unstamped = cmd_in("make test", None, &["/work"]);
    let histories = vec![("bash".to_string(), vec![older, unstamped, newer])];
    let r = engine.search(
        "make",
        &Vec::new(),
        &Vec::new(),
        &Vec::new(),
        &histories,
        &"/work".to_string(),
    );
    let stamps: Vec<Option<u64>> = r
        .shell_commands_results
        .iter()
        .map(|res| match &res.item {
            SearchItem::HistoryCommand(c) => c.latest_timestamp,
            _ => panic!("expected a history result"),
        })
        .collect();
    assert_eq!(stamps, vec![Some(200), Some(100), None]);
}

#[test]
fn history_results_are_capped() {
    let engine = SearchEngine::new();
    let mut cmds = Vec::new();
    for i in 0..80 {
        cmds.push(cmd_in(&format!("make target{}", i), Some(i as u64), &["/w"]));
    }
    let histories = vec![("bash".to_string(), cmds)];
    let r = engine.search(
        "make",
        &Vec::new(),
        &Vec::new(),
        &Vec::new(),
        &histories,
        &"/w".to_string(),
    );
    assert_eq!(r.shell_commands_results.len(), 50);
}

#[test]
fn history_pool_is_ignored_by_mode_and_empty_queries() {
    let engine = SearchEngine::new();
    let histories = vec![("bash".to_string(), vec![cmd_in("make", None, &["/w"])])];
    let empty = engine.search("", &Vec::new(), &Vec::new(), &Vec::new(), &histories, &"/w".to_string());
    assert!(empty.shell_commands_results.is_empty());
    let mode = engine.search(
        "struct m",
        &Vec::new(),
        &Vec::new(),
        &Vec::new(),
        &histories,
        &"/w".to_string(),
    );
    assert!(mode.shell_commands_results.is_empty());
}
