use jjit::commands::commit::{commit_action, commit_user_prompt, CommitAction};
use jjit::commands::goto::{goto_action, GotoAction};
use jjit::commands::pack::{meaningful_entries, pack_calls, pack_plan, PackPlan, ROOT_COMMIT_ID};
use jjit::commands::{
    add_language_hint, client_settings, entry_text, full_message, history_prompt, log_text,
    run_flags,
};
use jjit::config::Config;
use jjit::jj_util::LogEntry;
use jjit::output::parse_xml_output;

fn entry(id: &str, change: &str, empty: bool) -> LogEntry {
    LogEntry {
        commit_id: id.to_string(),
        change_id: change.to_string(),
        author_name: "Ann".to_string(),
        author_email: "ann@example.com".to_string(),
        author_date: "2024-01-01".to_string(),
        description: format!("work {}", id),
        parents: vec![],
        local_bookmarks: vec![],
        remote_bookmarks: vec![],
        is_working_copy: false,
        conflict: false,
        empty,
    }
}

#[test]
fn run_flags_from_defaults_and_settings() {
    let c = Config::default();
    let f = run_flags(&c);
    assert!(!f.verbose && !f.show_prompt && !f.debug);
    assert!(f.show_thinking);

    let mut c = Config::default();
    c.set("verbose", "true");
    c.set("show_prompt", "true");
    c.set("debug", "yes");
    c.set("show_thinking", "false");
    let f = run_flags(&c);
    assert!(f.verbose && f.show_prompt);
    assert!(!f.debug);
    assert!(!f.show_thinking);

    let mut c = Config::default();
    c.set("show_thinking", "no");
    assert!(run_flags(&c).show_thinking);
}

#[test]
fn client_settings_use_the_defaults_unless_set() {
    let s = client_settings(&Config::default());
    assert_eq!(s.base_url, "https://api.deepseek.com");
    assert_eq!(s.model, "deepseek-v4-flash");
    let mut c = Config::default();
    c.set("model", "m");
    c.set("base_url", "http://localhost:1");
    let s = client_settings(&c);
    assert_eq!(s.base_url, "http://localhost:1");
    assert_eq!(s.model, "m");
}

#[test]
fn language_hint_is_added_except_for_english() {
    let mut c = Config::default();
    c.set("language", "en");
    assert_eq!(add_language_hint("P", &c, Some("zh_CN.UTF-8")), "P");
    c.set("language", "ja");
    assert_eq!(
        add_language_hint("P", &c, None),
        "P\n\nYou MUST respond in ja language."
    );
    let c = Config::default();
    assert_eq!(
        add_language_hint("P", &c, Some("en_US.UTF-8")),
        "P"
    );
    assert_eq!(
        add_language_hint("P", &c, None),
        "P\n\nYou MUST respond in zh language."
    );
}

#[test]
fn full_message_joins_message_and_body() {
    assert_eq!(full_message("m".to_string(), None), "m");
    assert_eq!(full_message("m".to_string(), Some("b".to_string())), "m\n\nb");
}

#[test]
fn history_text_shows_each_commit() {
    let e = entry("c1", "k1", false);
    assert_eq!(
        entry_text(&e),
        "Commit ID: c1\nAuthor: Ann <ann@example.com>\nDescription: work c1\nDate: 2024-01-01\n"
    );
    let t = log_text(&vec![entry("c1", "k1", false), entry("c2", "k2", false)]);
    assert_eq!(
        t,
        "Commit ID: c1\nAuthor: Ann <ann@example.com>\nDescription: work c1\nDate: 2024-01-01\n\nCommit ID: c2\nAuthor: Ann <ann@example.com>\nDescription: work c2\nDate: 2024-01-01\n"
    );
    assert_eq!(log_text(&vec![]), "");
    assert_eq!(
        history_prompt("latest", "LOG"),
        "User request: latest\n\nCommit history:\nLOG"
    );
}

#[test]
fn commit_prompt_lists_the_changes_and_the_diff() {
    let p = commit_user_prompt("M src/a.rs\nA b.txt\n", "DIFF");
    assert_eq!(
        p,
        "Files changed (2)\n  Modified - src/a.rs\n  Added - b.txt\n\nDiff:\nDIFF"
    );
    assert_eq!(commit_user_prompt("", "D"), "Files changed (0)\n\n\nDiff:\nD");
}

#[test]
fn commit_reply_leads_to_a_commit() {
    let o = parse_xml_output(
        "<commit><summary>s</summary><message>feat: x</message><body>why</body></commit>",
    ).unwrap();
    match commit_action(o) {
        CommitAction::Commit { message } => assert_eq!(message, "feat: x\n\nwhy"),
        _ => panic!("expected a commit"),
    }
    let o = parse_xml_output("<reply><message>nothing</message></reply>").unwrap();
    match commit_action(o) {
        CommitAction::Reply { message } => assert_eq!(message, "nothing"),
        _ => panic!("expected a reply"),
    }
    let o = parse_xml_output("<goto><summary>s</summary><target>t</target></goto>").unwrap();
    assert!(matches!(commit_action(o), CommitAction::Unexpected));
}

#[test]
fn goto_reply_leads_to_a_checkout() {
    let o = parse_xml_output("<goto><summary>s</summary><target>abc</target></goto>").unwrap();
    match goto_action(o) {
        GotoAction::Checkout { summary, target } => {
            assert_eq!(summary, "s");
            assert_eq!(target, "abc");
        }
        _ => panic!("expected a checkout"),
    }
    let o = parse_xml_output("<reply><message>none</message></reply>").unwrap();
    assert!(matches!(goto_action(o), GotoAction::Reply { .. }));
    let o = parse_xml_output("<commit><summary>s</summary><message>m</message></commit>").unwrap();
    assert!(matches!(goto_action(o), GotoAction::Unexpected));
}

#[test]
fn root_and_empty_commits_are_not_shown() {
    let es = vec![
        entry("c1", "k1", false),
        entry("c2", "k2", true),
        entry(ROOT_COMMIT_ID, "zz", false),
        entry("c4", "k4", false),
    ];
    let m = meaningful_entries(&es);
    let ids: Vec<&str> = m.iter().map(|e| e.commit_id.as_str()).collect();
    assert_eq!(ids, vec!["c1", "c4"]);
}

fn history() -> Vec<LogEntry> {
    vec![
        entry("c1", "k1", false),
        entry("c2", "k2", true),
        entry("c3", "k3", false),
        entry("c4", "k4", false),
    ]
}

#[test]
fn pack_plan_squashes_into_the_first_selected_commit() {
    let o = parse_xml_output(
        "<pack><summary>s</summary><commits>c4, c2, c1, c3</commits><message>m</message><body>b</body></pack>",
    )
    .unwrap();
    match pack_plan(&history(), o) {
        PackPlan::Squash { summary, target, sources, message, count } => {
            assert_eq!(summary, "s");
            assert_eq!(target, "k1");
            assert_eq!(sources, vec!["c3".to_string(), "c4".to_string()]);
            assert_eq!(message, "m\n\nb");
            assert_eq!(count, 3);
        }
        _ => panic!("expected a squash"),
    }
}

#[test]
fn pack_plan_with_one_or_no_commit() {
    let o = parse_xml_output("<pack><summary>s</summary><commits>c2, c3</commits><message>m</message></pack>").unwrap();
    assert!(matches!(pack_plan(&history(), o), PackPlan::OnlyOne { .. }));
    let o = parse_xml_output("<pack><summary>s</summary><commits>zz</commits><message>m</message></pack>").unwrap();
    assert!(matches!(pack_plan(&history(), o), PackPlan::OnlyOne { .. }));
    let o = parse_xml_output("<pack><summary>s</summary><commits> </commits><message>m</message></pack>").unwrap();
    match pack_plan(&history(), o) {
        PackPlan::NoCommits { summary } => assert_eq!(summary, "s"),
        _ => panic!("expected no commits"),
    }
    let o = parse_xml_output("<reply><message>r</message></reply>").unwrap();
    assert!(matches!(pack_plan(&history(), o), PackPlan::Reply { .. }));
    let o = parse_xml_output("<goto><summary>s</summary><target>t</target></goto>").unwrap();
    assert!(matches!(pack_plan(&history(), o), PackPlan::Unexpected));
}

#[test]
fn pack_calls_squash_describe_then_start_a_new_change() {
    let calls = pack_calls("k1", &vec!["c3".to_string(), "c4".to_string()], "msg");
    let args: Vec<Vec<&str>> = calls
        .iter()
        .map(|c| c.args.iter().map(|a| a.as_str()).collect())
        .collect();
    assert_eq!(
        args,
        vec![
            vec!["squash", "--from", "c3", "--into", "k1", "-m", "msg"],
            vec!["squash", "--from", "c4", "--into", "k1", "-m", "msg"],
            vec!["describe", "-r", "k1", "-m", "msg"],
            vec!["new", "k1"],
        ]
    );
    assert_eq!(calls[0].context, "Failed to squash commit");
    assert_eq!(calls[2].context, "Failed to describe commit by change id");
    assert_eq!(calls[3].context, "Failed to create new commit");
}

#[test]
fn root_commit_id_is_a_full_commit_id() {
    assert_eq!(ROOT_COMMIT_ID.len(), 40);
    assert!(ROOT_COMMIT_ID.chars().all(|c| c == '0'));
}

#[test]
fn commit_prompt_reads_renames_and_skips_unknown_lines() {
    let p = commit_user_prompt("R old.rs -> new.rs\nX what\nC a -> b -> c\nR no-arrow\n  \nD gone.rs  \n", "");
    assert_eq!(
        p,
        "Files changed (3)\n  Renamed - new.rs\n  Copied - b -> c\n  Deleted - gone.rs\n\nDiff:\n"
    );
}
