use jjit::jj_util::{
    commit, describe_change, describe_commit, get_diff, get_diff_for_rev, get_diff_summary,
    get_log_all, get_log_today, get_parent_commit, get_repo_root, get_status, has_changes,
    log_entries_from, log_lines, new_commit, squash, squash_from_into, squash_into,
    squash_working_copy, trimmed_output, JjCall, LogEntry, RawLogEntry, COMMIT_ID_TEMPLATE,
    FULL_LOG_TEMPLATE,
};

fn args(c: &JjCall) -> Vec<&str> {
    c.args.iter().map(|a| a.as_str()).collect()
}

#[test]
fn queries_have_their_arguments_and_messages() {
    let c = get_repo_root();
    assert_eq!(args(&c), vec!["root"]);
    assert_eq!(c.context, "Failed to get jj repo root");
    let c = get_status();
    assert_eq!(args(&c), vec!["status"]);
    assert_eq!(c.context, "Failed to get jj status");
    let c = get_diff_summary();
    assert_eq!(args(&c), vec!["diff", "--summary"]);
    assert_eq!(c.context, "Failed to get diff summary");
    let c = get_diff();
    assert_eq!(args(&c), vec!["diff"]);
    assert_eq!(c.context, "Failed to get diff");
    let c = get_diff_for_rev("abc");
    assert_eq!(args(&c), vec!["diff", "-r", "abc"]);
    assert_eq!(c.context, "Failed to get diff for revision");
}

#[test]
fn log_queries_use_the_full_template() {
    let c = get_log_all();
    assert_eq!(
        args(&c),
        vec!["log", "-r", "all()", "--template", FULL_LOG_TEMPLATE, "--no-graph"]
    );
    assert_eq!(c.context, "Failed to get jj log");
    let c = get_log_today();
    assert_eq!(
        args(&c),
        vec![
            "log",
            "-r",
            "author_date(after:'today 00:00')",
            "--template",
            FULL_LOG_TEMPLATE,
            "--no-graph"
        ]
    );
    assert_eq!(c.context, "Failed to get today's jj log");
    let c = get_parent_commit("abc");
    assert_eq!(
        args(&c),
        vec!["log", "-r", "abc-", "--template", COMMIT_ID_TEMPLATE, "--no-graph"]
    );
    assert_eq!(c.context, "Failed to get parent commit");
    assert!(FULL_LOG_TEMPLATE.contains("stringify(commit_id)"));
}

#[test]
fn changing_commands_have_their_arguments_and_messages() {
    let c = commit("feat: x");
    assert_eq!(args(&c), vec!["commit", "-m", "feat: x"]);
    assert_eq!(c.context, "Failed to create commit");
    let c = new_commit("rev");
    assert_eq!(args(&c), vec!["new", "rev"]);
    assert_eq!(c.context, "Failed to create new commit");
    let c = squash("a::b", "m");
    assert_eq!(args(&c), vec!["squash", "-r", "a::b", "-m", "m"]);
    assert_eq!(c.context, "Failed to squash commits");
    let c = squash_working_copy("m");
    assert_eq!(args(&c), vec!["squash", "-m", "m"]);
    assert_eq!(c.context, "Failed to squash working copy commit");
    let c = squash_from_into("f", "i", "m");
    assert_eq!(args(&c), vec!["squash", "--from", "f", "--into", "i", "-m", "m"]);
    assert_eq!(c.context, "Failed to squash commits");
    let c = squash_into("f", "i", "m");
    assert_eq!(args(&c), vec!["squash", "--from", "f", "--into", "i", "-m", "m"]);
    assert_eq!(c.context, "Failed to squash commit");
    let c = describe_commit("cid", "m");
    assert_eq!(args(&c), vec!["describe", "-r", "cid", "-m", "m"]);
    assert_eq!(c.context, "Failed to describe commit");
    let c = describe_change("chg", "m");
    assert_eq!(args(&c), vec!["describe", "-r", "chg", "-m", "m"]);
    assert_eq!(c.context, "Failed to describe commit by change id");
}

#[test]
fn trimmed_output_drops_surrounding_white_space() {
    assert_eq!(trimmed_output("  /repo/path\n"), "/repo/path");
    assert_eq!(trimmed_output("\n"), "");
}

#[test]
fn diff_summary_decides_whether_there_are_changes() {
    assert!(has_changes("M src/a.rs\n"));
    assert!(has_changes("A new.txt\nD old.txt\n"));
    assert!(!has_changes(""));
    assert!(!has_changes("\n"));
}

#[test]
fn log_lines_skips_blank_lines() {
    assert_eq!(log_lines("a\n\n  \nb\n"), vec!["a".to_string(), "b".to_string()]);
    assert_eq!(log_lines(""), Vec::<String>::new());
    assert_eq!(log_lines("x\r\ny"), vec!["x".to_string(), "y".to_string()]);
}

fn raw(id: &str, empty: &str, parents: Vec<&str>) -> RawLogEntry {
    RawLogEntry {
        commit_id: id.to_string(),
        change_id: format!("ch-{}", id),
        author_name: "Ann".to_string(),
        author_email: "ann@example.com".to_string(),
        author_date: "2024-01-01 10:00:00".to_string(),
        description: "first line\nsecond line\n".to_string(),
        parents: parents.into_iter().map(|p| p.to_string()).collect(),
        local_bookmarks: vec!["main".to_string(), String::new()],
        remote_bookmarks: vec![],
        is_working_copy: "false".to_string(),
        conflict: "true".to_string(),
        empty: empty.to_string(),
    }
}

#[test]
fn log_entry_from_raw_reads_flags_and_drops_empty_names() {
    let e = LogEntry::from_raw(raw("c1", "true", vec!["p1", ""]));
    assert_eq!(e.commit_id, "c1");
    assert_eq!(e.change_id, "ch-c1");
    assert_eq!(e.parents, vec!["p1".to_string()]);
    assert_eq!(e.local_bookmarks, vec!["main".to_string()]);
    assert!(e.remote_bookmarks.is_empty());
    assert!(!e.is_working_copy);
    assert!(e.conflict);
    assert!(e.empty);
    let e = LogEntry::from_raw(raw("c2", "TRUE", vec![]));
    assert!(!e.empty);
}

#[test]
fn log_entry_summary_is_the_first_line() {
    let e = LogEntry::from_raw(raw("c1", "false", vec![]));
    assert_eq!(e.summary(), "first line");
    let mut r = raw("c2", "false", vec![]);
    r.description = String::new();
    assert_eq!(LogEntry::from_raw(r).summary(), "");
}

#[test]
fn unparsed_log_lines_are_skipped() {
    let es = log_entries_from(vec![
        Some(raw("c1", "false", vec![])),
        None,
        Some(raw("c3", "true", vec![])),
    ]);
    assert_eq!(es.len(), 2);
    assert_eq!(es[0].commit_id, "c1");
    assert_eq!(es[1].commit_id, "c3");
    assert!(es[1].empty);
}

#[test]
fn joined_log_output_gives_the_lines_of_each_part() {
    let a = "{\"a\":1}\n\n  \n{\"b\":2}";
    let b = "\n{\"c\":3}\n";
    let joined = format!("{}\n{}", a, b);
    let mut expected = log_lines(a);
    expected.extend(log_lines(b));
    assert_eq!(log_lines(&joined), expected);
    assert_eq!(log_lines(&joined).len(), 3);
}
