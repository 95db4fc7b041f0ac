//! The jj invocations the commands make, and the reading of their output.
//!
//! Each function here returns the arguments of one `jj` run together with
//! the message that explains a failure of that run; the caller runs `jj`
//! in the repository and hands the output to the reading functions.

use crate::text::{
    concat, find_char, is_blank, lemma_find_char, lemma_find_char_at, lines, lines_spec, str_eq,
    occurs_at, strip_cr, trim, trim_end_spec, trim_spec, views,
};
use vstd::prelude::*;

verus! {

broadcast use vstd::string::group_string_axioms;

/// Template for `jj log` that prints one JSON object per commit, with full
/// commit ids so that revsets resolve reliably.
pub const FULL_LOG_TEMPLATE: &'static str = "'{\"commitId\":' ++ stringify(commit_id).escape_json() ++ ',\"changeId\":' ++ stringify(change_id).escape_json() ++ ',\"authorName\":' ++ author.name().escape_json() ++ ',\"authorEmail\":' ++ stringify(author.email()).escape_json() ++ ',\"authorDate\":' ++ author.timestamp().format(\"%Y-%m-%d %H:%M:%S\").escape_json() ++ ',\"description\":' ++ description.escape_json() ++ ',\"parents\":[' ++ parents.map(|p| stringify(p.commit_id()).escape_json()).join(',') ++ ']' ++ ',\"localBookmarks\":[' ++ local_bookmarks.map(|b| b.name().escape_json()).join(',') ++ ']' ++ ',\"remoteBookmarks\":[' ++ remote_bookmarks.map(|b| stringify(b.name() ++ \"@\" ++ b.remote()).escape_json()).join(',') ++ ']' ++ ',\"isWorkingCopy\":' ++ if(current_working_copy, '\"true\"', '\"false\"') ++ ',\"conflict\":' ++ if(conflict, '\"true\"', '\"false\"') ++ ',\"empty\":' ++ if(empty, '\"true\"', '\"false\"') ++ '}' ++ \"\\n\"";

/// Template for `jj log` that prints only the commit id.
pub const COMMIT_ID_TEMPLATE: &'static str = "stringify(commit_id) ++ \"\\n\"";

/// One `jj` run: its arguments, and what a failure of it means.
pub struct JjCall {
    pub args: Vec<String>,
    pub context: String,
}

/// Whether a call has these arguments and this failure message.
pub open spec fn call_is(c: JjCall, args: Seq<Seq<char>>, context: Seq<char>) -> bool {
    views(c.args@) == args && c.context@ == context
}

fn arg(s: &str) -> (r: String)
    ensures
        r@ == s@,
{
    s.to_owned()
}

/// `jj root`: the repository root.
pub fn get_repo_root() -> (c: JjCall)
    ensures
        call_is(c, seq!["root"@], "Failed to get jj repo root"@),
{
    let args = vec![arg("root")];
    assert(views(args@) =~= seq!["root"@]);
    JjCall { args, context: arg("Failed to get jj repo root") }
}

/// `jj status`.
pub fn get_status() -> (c: JjCall)
    ensures
        call_is(c, seq!["status"@], "Failed to get jj status"@),
{
    let args = vec![arg("status")];
    assert(views(args@) =~= seq!["status"@]);
    JjCall { args, context: arg("Failed to get jj status") }
}

/// `jj diff --summary`: the changed files of the working copy.
pub fn get_diff_summary() -> (c: JjCall)
    ensures
        call_is(c, seq!["diff"@, "--summary"@], "Failed to get diff summary"@),
{
    let args = vec![arg("diff"), arg("--summary")];
    assert(views(args@) =~= seq!["diff"@, "--summary"@]);
    JjCall { args, context: arg("Failed to get diff summary") }
}

/// `jj diff`: the diff of the working copy.
pub fn get_diff() -> (c: JjCall)
    ensures
        call_is(c, seq!["diff"@], "Failed to get diff"@),
{
    let args = vec![arg("diff")];
    assert(views(args@) =~= seq!["diff"@]);
    JjCall { args, context: arg("Failed to get diff") }
}

/// `jj diff -r <rev>`: the diff of a revision.
pub fn get_diff_for_rev(rev: &str) -> (c: JjCall)
    ensures
        call_is(c, seq!["diff"@, "-r"@, rev@], "Failed to get diff for revision"@),
{
    let args = vec![arg("diff"), arg("-r"), arg(rev)];
    assert(views(args@) =~= seq!["diff"@, "-r"@, rev@]);
    JjCall { args, context: arg("Failed to get diff for revision") }
}

/// `jj log -r all()` with the JSON template: the whole history.
pub fn get_log_all() -> (c: JjCall)
    ensures
        call_is(
            c,
            seq!["log"@, "-r"@, "all()"@, "--template"@, FULL_LOG_TEMPLATE@, "--no-graph"@],
            "Failed to get jj log"@,
        ),
{
    let args = vec![
        arg("log"),
        arg("-r"),
        arg("all()"),
        arg("--template"),
        arg(FULL_LOG_TEMPLATE),
        arg("--no-graph"),
    ];
    assert(views(args@) =~= seq![
        "log"@,
        "-r"@,
        "all()"@,
        "--template"@,
        FULL_LOG_TEMPLATE@,
        "--no-graph"@,
    ]);
    JjCall { args, context: arg("Failed to get jj log") }
}

/// `jj log` of the commits authored since midnight, with the JSON template.
pub fn get_log_today() -> (c: JjCall)
    ensures
        call_is(
            c,
            seq![
                "log"@,
                "-r"@,
                "author_date(after:'today 00:00')"@,
                "--template"@,
                FULL_LOG_TEMPLATE@,
                "--no-graph"@,
            ],
            "Failed to get today's jj log"@,
        ),
{
    let args = vec![
        arg("log"),
        arg("-r"),
        arg("author_date(after:'today 00:00')"),
        arg("--template"),
        arg(FULL_LOG_TEMPLATE),
        arg("--no-graph"),
    ];
    assert(views(args@) =~= seq![
        "log"@,
        "-r"@,
        "author_date(after:'today 00:00')"@,
        "--template"@,
        FULL_LOG_TEMPLATE@,
        "--no-graph"@,
    ]);
    JjCall { args, context: arg("Failed to get today's jj log") }
}

/// `jj commit -m <message>`: commits the working copy.
pub fn commit(message: &str) -> (c: JjCall)
    ensures
        call_is(c, seq!["commit"@, "-m"@, message@], "Failed to create commit"@),
{
    let args = vec![arg("commit"), arg("-m"), arg(message)];
    assert(views(args@) =~= seq!["commit"@, "-m"@, message@]);
    JjCall { args, context: arg("Failed to create commit") }
}

/// `jj new <rev>`: a new working copy on top of a revision.
pub fn new_commit(rev: &str) -> (c: JjCall)
    ensures
        call_is(c, seq!["new"@, rev@], "Failed to create new commit"@),
{
    let args = vec![arg("new"), arg(rev)];
    assert(views(args@) =~= seq!["new"@, rev@]);
    JjCall { args, context: arg("Failed to create new commit") }
}

/// `jj squash -r <range> -m <message>`.
pub fn squash(range: &str, message: &str) -> (c: JjCall)
    ensures
        call_is(
            c,
            seq!["squash"@, "-r"@, range@, "-m"@, message@],
            "Failed to squash commits"@,
        ),
{
    let args = vec![arg("squash"), arg("-r"), arg(range), arg("-m"), arg(message)];
    assert(views(args@) =~= seq!["squash"@, "-r"@, range@, "-m"@, message@]);
    JjCall { args, context: arg("Failed to squash commits") }
}

/// `jj squash -m <message>`: the working copy into its parent.
pub fn squash_working_copy(message: &str) -> (c: JjCall)
    ensures
        call_is(c, seq!["squash"@, "-m"@, message@], "Failed to squash working copy commit"@),
{
    let args = vec![arg("squash"), arg("-m"), arg(message)];
    assert(views(args@) =~= seq!["squash"@, "-m"@, message@]);
    JjCall { args, context: arg("Failed to squash working copy commit") }
}

/// `jj squash --from <from> --into <into> -m <message>`.
pub fn squash_from_into(from: &str, into: &str, message: &str) -> (c: JjCall)
    ensures
        call_is(
            c,
            seq!["squash"@, "--from"@, from@, "--into"@, into@, "-m"@, message@],
            "Failed to squash commits"@,
        ),
{
    let args = vec![
        arg("squash"),
        arg("--from"),
        arg(from),
        arg("--into"),
        arg(into),
        arg("-m"),
        arg(message),
    ];
    assert(views(args@) =~= seq!["squash"@, "--from"@, from@, "--into"@, into@, "-m"@, message@]);
    JjCall { args, context: arg("Failed to squash commits") }
}

/// `jj describe -r <commit_id> -m <message>`.
pub fn describe_commit(commit_id: &str, message: &str) -> (c: JjCall)
    ensures
        call_is(
            c,
            seq!["describe"@, "-r"@, commit_id@, "-m"@, message@],
            "Failed to describe commit"@,
        ),
{
    let args = vec![arg("describe"), arg("-r"), arg(commit_id), arg("-m"), arg(message)];
    assert(views(args@) =~= seq!["describe"@, "-r"@, commit_id@, "-m"@, message@]);
    JjCall { args, context: arg("Failed to describe commit") }
}

/// `jj describe -r <change_id> -m <message>`.
pub fn describe_change(change_id: &str, message: &str) -> (c: JjCall)
    ensures
        call_is(
            c,
            seq!["describe"@, "-r"@, change_id@, "-m"@, message@],
            "Failed to describe commit by change id"@,
        ),
{
    let args = vec![arg("describe"), arg("-r"), arg(change_id), arg("-m"), arg(message)];
    assert(views(args@) =~= seq!["describe"@, "-r"@, change_id@, "-m"@, message@]);
    JjCall { args, context: arg("Failed to describe commit by change id") }
}

/// `jj squash --from <from> --into <into> -m <message>`: one commit into another.
pub fn squash_into(from: &str, into: &str, message: &str) -> (c: JjCall)
    ensures
        call_is(
            c,
            seq!["squash"@, "--from"@, from@, "--into"@, into@, "-m"@, message@],
            "Failed to squash commit"@,
        ),
{
    let args = vec![
        arg("squash"),
        arg("--from"),
        arg(from),
        arg("--into"),
        arg(into),
        arg("-m"),
        arg(message),
    ];
    assert(views(args@) =~= seq!["squash"@, "--from"@, from@, "--into"@, into@, "-m"@, message@]);
    JjCall { args, context: arg("Failed to squash commit") }
}

/// `jj log -r <commit_id>-` printing only commit ids: the parent of a commit.
pub fn get_parent_commit(commit_id: &str) -> (c: JjCall)
    ensures
        call_is(
            c,
            seq![
                "log"@,
                "-r"@,
                commit_id@ + "-"@,
                "--template"@,
                COMMIT_ID_TEMPLATE@,
                "--no-graph"@,
            ],
            "Failed to get parent commit"@,
        ),
{
    let args = vec![
        arg("log"),
        arg("-r"),
        concat(commit_id, "-"),
        arg("--template"),
        arg(COMMIT_ID_TEMPLATE),
        arg("--no-graph"),
    ];
    assert(views(args@) =~= seq![
        "log"@,
        "-r"@,
        commit_id@ + "-"@,
        "--template"@,
        COMMIT_ID_TEMPLATE@,
        "--no-graph"@,
    ]);
    JjCall { args, context: arg("Failed to get parent commit") }
}

/// The output of `jj root` or of the parent query, without surrounding
/// white space: the root path, or the parent's commit id.
pub fn trimmed_output(output: &str) -> (r: String)
    ensures
        r@ == trim_spec(output@),
{
    trim(output)
}

// ---------------------------------------------------------------------------
// Reading `jj diff --summary`
// ---------------------------------------------------------------------------

/// A changed file as `jj diff --summary` lists it: the kind of change
/// (`Added`, `Modified`, `Deleted`, `Renamed` or `Copied`) and the path.
#[derive(Debug, Clone)]
pub struct DiffEntry {
    pub kind: String,
    pub path: String,
}

/// The view of a [`DiffEntry`].
pub struct DiffEntryView {
    pub kind: Seq<char>,
    pub path: Seq<char>,
}

impl View for DiffEntry {
    type V = DiffEntryView;

    open spec fn view(&self) -> DiffEntryView {
        DiffEntryView { kind: self.kind@, path: self.path@ }
    }
}

/// Views of a sequence of changed files.
pub open spec fn diff_views(v: Seq<DiffEntry>) -> Seq<DiffEntryView> {
    v.map_values(|e: DiffEntry| e@)
}

/// The first position of `pat` in `s`, if it occurs.
pub open spec fn first_occurrence(s: Seq<char>, pat: Seq<char>) -> Option<int> {
    if exists|i: int| occurs_at(s, pat, i) {
        Some(
            choose|i: int|
                occurs_at(s, pat, i) && forall|j: int| 0 <= j < i ==> !occurs_at(s, pat, j),
        )
    } else {
        None
    }
}

/// The `Debug` name of the kind of change a status letter stands for.
pub open spec fn change_kind_spec(letter: Seq<char>) -> Option<Seq<char>> {
    if letter == seq!['M'] {
        Some("Modified"@)
    } else if letter == seq!['A'] {
        Some("Added"@)
    } else if letter == seq!['D'] {
        Some("Deleted"@)
    } else if letter == seq!['R'] {
        Some("Renamed"@)
    } else if letter == seq!['C'] {
        Some("Copied"@)
    } else {
        None
    }
}

/// The change one line of `jj diff --summary` lists: the line without
/// trailing white space is a status letter, a space and a path; a rename or
/// copy (`R`, `C`) names `from -> to`, and its path is `to`.  Blank lines,
/// lines without a space, unknown letters and renames without an arrow
/// give none.
pub open spec fn diff_line_spec(line: Seq<char>) -> Option<DiffEntryView> {
    let l = trim_end_spec(line);
    let sp = find_char(l, ' ');
    if l.len() == 0 || sp >= l.len() {
        None
    } else {
        let letter = l.take(sp);
        let rest = l.skip(sp + 1);
        match change_kind_spec(letter) {
            None => None,
            Some(kind) => if letter == seq!['R'] || letter == seq!['C'] {
                match first_occurrence(rest, seq![' ', '-', '>', ' ']) {
                    Some(i) => Some(DiffEntryView { kind, path: rest.skip(i + 4) }),
                    None => None,
                }
            } else {
                Some(DiffEntryView { kind, path: rest })
            },
        }
    }
}

/// The changes listed by some lines, in order.
pub open spec fn diff_lines_spec(ls: Seq<Seq<char>>) -> Seq<DiffEntryView>
    decreases ls.len(),
{
    if ls.len() == 0 {
        seq![]
    } else {
        match diff_line_spec(ls.last()) {
            Some(e) => diff_lines_spec(ls.drop_last()).push(e),
            None => diff_lines_spec(ls.drop_last()),
        }
    }
}

/// The changed files that `jj diff --summary` lists, line by line.
pub open spec fn diff_summary_spec(output: Seq<char>) -> Seq<DiffEntryView> {
    diff_lines_spec(lines_spec(output))
}

/// Reads the output of `jj diff --summary` (`vcs_runner::parse_diff_summary`).
///
/// Trusted: the result is `diff_summary_spec(output)`, the format that
/// function documents (`M`, `A`, `D` lines with a path, `R` and `C` lines
/// with `from -> to`, blank lines and unknown letters skipped), each change
/// with the `Debug` name of its kind and its path as displayed.
#[verifier::external_body]
pub(crate) fn parse_diff_summary(output: &str) -> (r: Vec<DiffEntry>)
    ensures
        diff_views(r@) == diff_summary_spec(output@),
{
    vcs_runner::parse_diff_summary(output)
        .into_iter()
        .map(|c| DiffEntry { kind: format!("{:?}", c.kind), path: c.path.display().to_string() })
        .collect()
}

/// Whether the working copy has changes, from the output of
/// `jj diff --summary`.
pub fn has_changes(diff_summary_output: &str) -> (b: bool)
    ensures
        b == (diff_summary_spec(diff_summary_output@).len() > 0),
{
    let changes = parse_diff_summary(diff_summary_output);
    changes.len() > 0
}

// ---------------------------------------------------------------------------
// Reading `jj log` with the JSON template
// ---------------------------------------------------------------------------

/// One line of `jj log` with [`FULL_LOG_TEMPLATE`], as its JSON fields read.
pub struct RawLogEntry {
    pub commit_id: String,
    pub change_id: String,
    pub author_name: String,
    pub author_email: String,
    pub author_date: String,
    pub description: String,
    pub parents: Vec<String>,
    pub local_bookmarks: Vec<String>,
    pub remote_bookmarks: Vec<String>,
    pub is_working_copy: String,
    pub conflict: String,
    pub empty: String,
}

/// A commit of the history.
#[derive(Debug, Clone)]
pub struct LogEntry {
    pub commit_id: String,
    pub change_id: String,
    pub author_name: String,
    pub author_email: String,
    pub author_date: String,
    pub description: String,
    pub parents: Vec<String>,
    pub local_bookmarks: Vec<String>,
    pub remote_bookmarks: Vec<String>,
    pub is_working_copy: bool,
    pub conflict: bool,
    pub empty: bool,
}

/// The view of a [`LogEntry`].
pub struct LogEntryView {
    pub commit_id: Seq<char>,
    pub change_id: Seq<char>,
    pub author_name: Seq<char>,
    pub author_email: Seq<char>,
    pub author_date: Seq<char>,
    pub description: Seq<char>,
    pub parents: Seq<Seq<char>>,
    pub local_bookmarks: Seq<Seq<char>>,
    pub remote_bookmarks: Seq<Seq<char>>,
    pub is_working_copy: bool,
    pub conflict: bool,
    pub empty: bool,
}

impl View for LogEntry {
    type V = LogEntryView;

    open spec fn view(&self) -> LogEntryView {
        LogEntryView {
            commit_id: self.commit_id@,
            change_id: self.change_id@,
            author_name: self.author_name@,
            author_email: self.author_email@,
            author_date: self.author_date@,
            description: self.description@,
            parents: views(self.parents@),
            local_bookmarks: views(self.local_bookmarks@),
            remote_bookmarks: views(self.remote_bookmarks@),
            is_working_copy: self.is_working_copy,
            conflict: self.conflict,
            empty: self.empty,
        }
    }
}

/// Views of a sequence of commits.
pub open spec fn entry_views(v: Seq<LogEntry>) -> Seq<LogEntryView> {
    v.map_values(|e: LogEntry| e@)
}

/// The non-empty strings of a list, in order.
pub open spec fn drop_empty(s: Seq<Seq<char>>) -> Seq<Seq<char>>
    decreases s.len(),
{
    if s.len() == 0 {
        seq![]
    } else if s.last().len() > 0 {
        drop_empty(s.drop_last()).push(s.last())
    } else {
        drop_empty(s.drop_last())
    }
}

/// The commit that a log line describes: the lists without empty names,
/// each flag set exactly when its field reads `true`.
pub open spec fn entry_from_raw_spec(raw: RawLogEntry) -> LogEntryView {
    LogEntryView {
        commit_id: raw.commit_id@,
        change_id: raw.change_id@,
        author_name: raw.author_name@,
        author_email: raw.author_email@,
        author_date: raw.author_date@,
        description: raw.description@,
        parents: drop_empty(views(raw.parents@)),
        local_bookmarks: drop_empty(views(raw.local_bookmarks@)),
        remote_bookmarks: drop_empty(views(raw.remote_bookmarks@)),
        is_working_copy: raw.is_working_copy@ == "true"@,
        conflict: raw.conflict@ == "true"@,
        empty: raw.empty@ == "true"@,
    }
}

/// The lines of `s` that are not blank, in order.
pub open spec fn non_blank_lines_spec(s: Seq<char>) -> Seq<Seq<char>> {
    keep_non_blank(lines_spec(s))
}

/// The items of a list that are not blank, in order.
pub open spec fn keep_non_blank(s: Seq<Seq<char>>) -> Seq<Seq<char>>
    decreases s.len(),
{
    if s.len() == 0 {
        seq![]
    } else if trim_spec(s.last()).len() > 0 {
        keep_non_blank(s.drop_last()).push(s.last())
    } else {
        keep_non_blank(s.drop_last())
    }
}

/// The commits of the lines that parsed, in order.
pub open spec fn parsed_entries_spec(parsed: Seq<Option<RawLogEntry>>) -> Seq<LogEntryView>
    decreases parsed.len(),
{
    if parsed.len() == 0 {
        seq![]
    } else {
        match parsed.last() {
            Some(raw) => parsed_entries_spec(parsed.drop_last()).push(entry_from_raw_spec(raw)),
            None => parsed_entries_spec(parsed.drop_last()),
        }
    }
}

/// The first line of a text, or the empty string when it has none.
pub open spec fn first_line_spec(s: Seq<char>) -> Seq<char> {
    if lines_spec(s).len() > 0 {
        lines_spec(s)[0]
    } else {
        seq![]
    }
}

/// The commits read from `jj log` output, given how one line is parsed.
pub open spec fn log_entries_spec(
    output: Seq<char>,
    parse: spec_fn(Seq<char>) -> Option<RawLogEntry>,
) -> Seq<LogEntryView> {
    parsed_entries_spec(non_blank_lines_spec(output).map_values(parse))
}

/// Whether a line parse ignores a carriage return at the end of a line (as
/// a JSON parse does, the carriage return being white space).
pub open spec fn ignores_trailing_cr(parse: spec_fn(Seq<char>) -> Option<RawLogEntry>) -> bool {
    forall|l: Seq<char>| #[trigger] parse(l.push('\r')) == parse(l)
}

/// The commits that some lines give, given how one line is parsed.
pub open spec fn line_entries(
    ls: Seq<Seq<char>>,
    parse: spec_fn(Seq<char>) -> Option<RawLogEntry>,
) -> Seq<LogEntryView> {
    parsed_entries_spec(keep_non_blank(ls).map_values(parse))
}

/// Reading two pieces of `jj log` output joined by a line break gives the
/// commits of the first piece followed by those of the second, for every
/// line parse that ignores a carriage return at the end of a line.  The
/// non-blank lines themselves are those of the two pieces, unless the first
/// piece ends in a carriage return, which the line break strips.
pub proof fn law_log_concat(
    a: Seq<char>,
    b: Seq<char>,
    parse: spec_fn(Seq<char>) -> Option<RawLogEntry>,
)
    requires
        ignores_trailing_cr(parse),
    ensures
        (a.len() == 0 || a.last() != '\r') ==> non_blank_lines_spec(a + seq!['\n'] + b)
            == non_blank_lines_spec(a) + non_blank_lines_spec(b),
        log_entries_spec(a + seq!['\n'] + b, parse) == log_entries_spec(a, parse)
            + log_entries_spec(b, parse),
{
    if a.len() == 0 || a.last() != '\r' {
        lemma_lines_join(a, b);
    }
    lemma_entries_join(a, b, parse);
}

proof fn lemma_line_entries_concat(
    x: Seq<Seq<char>>,
    y: Seq<Seq<char>>,
    parse: spec_fn(Seq<char>) -> Option<RawLogEntry>,
)
    ensures
        line_entries(x + y, parse) == line_entries(x, parse) + line_entries(y, parse),
{
    lemma_keep_non_blank_concat(x, y);
    let kx = keep_non_blank(x);
    let ky = keep_non_blank(y);
    assert((kx + ky).map_values(parse) =~= kx.map_values(parse) + ky.map_values(parse));
    lemma_parsed_entries_concat(kx.map_values(parse), ky.map_values(parse));
}

proof fn lemma_entries_join(a: Seq<char>, b: Seq<char>, parse: spec_fn(Seq<char>) -> Option<RawLogEntry>)
    requires
        ignores_trailing_cr(parse),
    ensures
        line_entries(lines_spec(a + seq!['\n'] + b), parse) == line_entries(lines_spec(a), parse)
            + line_entries(lines_spec(b), parse),
    decreases a.len(),
{
    let t = a + seq!['\n'] + b;
    let e = find_char(a, '\n');
    lemma_find_char(a, '\n');
    if e < a.len() {
        assert forall|k: int| 0 <= k < e implies t[k] != '\n' by {
            assert(t[k] == a[k]);
        }
        assert(t[e] == a[e]);
        lemma_find_char_at(t, '\n', e);
        let rest = a.skip(e + 1);
        assert(t.take(e) =~= a.take(e));
        assert(t.skip(e + 1) =~= rest + seq!['\n'] + b);
        lemma_entries_join(rest, b, parse);
        let head = seq![strip_cr(a.take(e))];
        assert(lines_spec(t) == head + lines_spec(rest + seq!['\n'] + b));
        assert(lines_spec(a) == head + lines_spec(rest));
        lemma_line_entries_concat(head, lines_spec(rest + seq!['\n'] + b), parse);
        lemma_line_entries_concat(head, lines_spec(rest), parse);
        assert(line_entries(head, parse) + (line_entries(lines_spec(rest), parse) + line_entries(
            lines_spec(b),
            parse,
        )) =~= line_entries(head, parse) + line_entries(lines_spec(rest), parse) + line_entries(
            lines_spec(b),
            parse,
        ));
    } else {
        assert forall|k: int| 0 <= k < a.len() implies t[k] != '\n' by {
            assert(t[k] == a[k]);
        }
        assert(t[a.len() as int] == '\n');
        lemma_find_char_at(t, '\n', a.len() as int);
        assert(t.take(a.len() as int) =~= a);
        assert(t.skip(a.len() as int + 1) =~= b);
        let head = seq![strip_cr(a)];
        assert(lines_spec(t) == head + lines_spec(b));
        lemma_line_entries_concat(head, lines_spec(b), parse);
        lemma_single_line_entries(a, parse);
    }
}

/// The commits of the last, unterminated piece of a text are those its
/// line gives with a final carriage return stripped.
proof fn lemma_single_line_entries(a: Seq<char>, parse: spec_fn(Seq<char>) -> Option<RawLogEntry>)
    requires
        ignores_trailing_cr(parse),
        forall|k: int| 0 <= k < a.len() ==> a[k] != '\n',
    ensures
        line_entries(seq![strip_cr(a)], parse) == line_entries(lines_spec(a), parse),
{
    lemma_keep_single(strip_cr(a));
    lemma_keep_single(a);
    if a.len() == 0 {
        assert(lines_spec(a) =~= Seq::<Seq<char>>::empty());
        assert(crate::text::trim_start_spec(a) == a);
        assert(keep_non_blank(Seq::<Seq<char>>::empty()) == Seq::<Seq<char>>::empty());
        assert(Seq::<Seq<char>>::empty().map_values(parse) =~= Seq::<Option<RawLogEntry>>::empty());
    } else {
        lemma_find_char_at(a, '\n', a.len() as int);
        assert(lines_spec(a) == seq![a]);
        if a.last() == '\r' {
            let a0 = a.drop_last();
            assert(a0.push('\r') =~= a);
            assert(parse(a0.push('\r')) == parse(a0));
            crate::text::lemma_trim_empty(a0);
            crate::text::lemma_trim_empty(a);
            assert(crate::text::all_white_space(a) == (crate::text::all_white_space(a0)
                && crate::text::is_white_space('\r'))) by {
                if crate::text::all_white_space(a0) {
                    assert forall|k: int| 0 <= k < a.len() implies crate::text::is_white_space(
                        #[trigger] a[k],
                    ) by {
                        if k < a0.len() {
                            assert(a[k] == a0[k]);
                        }
                    }
                }
                if crate::text::all_white_space(a) {
                    assert forall|k: int| 0 <= k < a0.len() implies crate::text::is_white_space(
                        #[trigger] a0[k],
                    ) by {
                        assert(a[k] == a0[k]);
                    }
                }
            }
            assert(seq![a0].map_values(parse) =~= seq![a].map_values(parse));
        }
    }
}

proof fn lemma_keep_single(x: Seq<char>)
    ensures
        keep_non_blank(seq![x]) == if trim_spec(x).len() > 0 {
            seq![x]
        } else {
            Seq::<Seq<char>>::empty()
        },
{
    assert(seq![x].drop_last() =~= Seq::<Seq<char>>::empty());
    assert(seq![x].last() == x);
    assert(keep_non_blank(Seq::<Seq<char>>::empty()) == Seq::<Seq<char>>::empty());
    assert(Seq::<Seq<char>>::empty().push(x) =~= seq![x]);
}

proof fn lemma_keep_non_blank_concat(x: Seq<Seq<char>>, y: Seq<Seq<char>>)
    ensures
        keep_non_blank(x + y) == keep_non_blank(x) + keep_non_blank(y),
    decreases y.len(),
{
    if y.len() == 0 {
        assert(x + y =~= x);
        assert(keep_non_blank(x) + keep_non_blank(y) =~= keep_non_blank(x));
    } else {
        lemma_keep_non_blank_concat(x, y.drop_last());
        assert((x + y).drop_last() =~= x + y.drop_last());
        assert((x + y).last() == y.last());
        if trim_spec(y.last()).len() > 0 {
            assert(keep_non_blank(x) + keep_non_blank(y.drop_last()).push(y.last()) =~= (
            keep_non_blank(x) + keep_non_blank(y.drop_last())).push(y.last()));
        }
    }
}

proof fn lemma_parsed_entries_concat(p: Seq<Option<RawLogEntry>>, q: Seq<Option<RawLogEntry>>)
    ensures
        parsed_entries_spec(p + q) == parsed_entries_spec(p) + parsed_entries_spec(q),
    decreases q.len(),
{
    if q.len() == 0 {
        assert(p + q =~= p);
        assert(parsed_entries_spec(p) + parsed_entries_spec(q) =~= parsed_entries_spec(p));
    } else {
        lemma_parsed_entries_concat(p, q.drop_last());
        assert((p + q).drop_last() =~= p + q.drop_last());
        assert((p + q).last() == q.last());
        match q.last() {
            Some(raw) => {
                assert(parsed_entries_spec(p) + parsed_entries_spec(q.drop_last()).push(
                    entry_from_raw_spec(raw),
                ) =~= (parsed_entries_spec(p) + parsed_entries_spec(q.drop_last())).push(
                    entry_from_raw_spec(raw),
                ));
            },
            None => {},
        }
    }
}

/// The non-blank lines of `a`, a line break and `b` are those of `a`
/// followed by those of `b`, when `a` does not end in a carriage return.
proof fn lemma_lines_join(a: Seq<char>, b: Seq<char>)
    requires
        a.len() == 0 || a.last() != '\r',
    ensures
        keep_non_blank(lines_spec(a + seq!['\n'] + b)) == keep_non_blank(lines_spec(a))
            + keep_non_blank(lines_spec(b)),
    decreases a.len(),
{
    let t = a + seq!['\n'] + b;
    let e = find_char(a, '\n');
    lemma_find_char(a, '\n');
    if e < a.len() {
        assert forall|k: int| 0 <= k < e implies t[k] != '\n' by {
            assert(t[k] == a[k]);
        }
        assert(t[e] == a[e]);
        lemma_find_char_at(t, '\n', e);
        let rest = a.skip(e + 1);
        assert(t.take(e) =~= a.take(e));
        assert(t.skip(e + 1) =~= rest + seq!['\n'] + b);
        if rest.len() > 0 {
            assert(rest.last() == a.last());
        }
        lemma_lines_join(rest, b);
        let head = seq![strip_cr(a.take(e))];
        assert(lines_spec(t) == head + lines_spec(rest + seq!['\n'] + b));
        assert(lines_spec(a) == head + lines_spec(rest));
        lemma_keep_non_blank_concat(head, lines_spec(rest + seq!['\n'] + b));
        lemma_keep_non_blank_concat(head, lines_spec(rest));
        assert(keep_non_blank(head) + (keep_non_blank(lines_spec(rest)) + keep_non_blank(
            lines_spec(b),
        )) =~= keep_non_blank(head) + keep_non_blank(lines_spec(rest)) + keep_non_blank(
            lines_spec(b),
        ));
    } else {
        assert forall|k: int| 0 <= k < a.len() implies t[k] != '\n' by {
            assert(t[k] == a[k]);
        }
        assert(t[a.len() as int] == '\n');
        lemma_find_char_at(t, '\n', a.len() as int);
        assert(t.take(a.len() as int) =~= a);
        assert(t.skip(a.len() as int + 1) =~= b);
        assert(strip_cr(a) == a);
        let head = seq![a];
        assert(lines_spec(t) == head + lines_spec(b));
        lemma_keep_non_blank_concat(head, lines_spec(b));
        if a.len() == 0 {
            assert(head.drop_last() =~= Seq::<Seq<char>>::empty());
            assert(head.last() == a);
            assert(a =~= Seq::<char>::empty());
            assert(crate::text::trim_start_spec(a) == a);
            assert(trim_spec(a).len() == 0);
            assert(keep_non_blank(Seq::<Seq<char>>::empty()) == Seq::<Seq<char>>::empty());
            assert(keep_non_blank(head) =~= Seq::<Seq<char>>::empty());
            assert(lines_spec(a) =~= Seq::<Seq<char>>::empty());
        } else {
            assert(lines_spec(a) == head);
        }
    }
}

/// Dropping the empty names keeps exactly the non-empty ones, in order.
pub proof fn law_drop_empty(s: Seq<Seq<char>>)
    ensures
        drop_empty(s) == s.filter(|x: Seq<char>| x.len() > 0),
    decreases s.len(),
{
    let pred = |x: Seq<char>| x.len() > 0;
    reveal(Seq::filter);
    if s.len() > 0 {
        law_drop_empty(s.drop_last());
        assert(s.filter(pred) == if pred(s.last()) {
            s.drop_last().filter(pred).push(s.last())
        } else {
            s.drop_last().filter(pred)
        });
    } else {
        assert(s.filter(pred) == s);
        assert(s =~= Seq::<Seq<char>>::empty());
    }
}

/// A commit read from a log line carries that line's fields: each text
/// field is the same-named field of the line, each list keeps the line's
/// non-empty names in order, and each flag is set exactly when the line's
/// field reads `true`.
pub proof fn law_entry_from_raw(raw: RawLogEntry)
    ensures
        entry_from_raw_spec(raw).commit_id == raw.commit_id@,
        entry_from_raw_spec(raw).change_id == raw.change_id@,
        entry_from_raw_spec(raw).author_name == raw.author_name@,
        entry_from_raw_spec(raw).author_email == raw.author_email@,
        entry_from_raw_spec(raw).author_date == raw.author_date@,
        entry_from_raw_spec(raw).description == raw.description@,
        entry_from_raw_spec(raw).parents == views(raw.parents@).filter(|x: Seq<char>| x.len() > 0),
        entry_from_raw_spec(raw).local_bookmarks == views(raw.local_bookmarks@).filter(
            |x: Seq<char>| x.len() > 0,
        ),
        entry_from_raw_spec(raw).remote_bookmarks == views(raw.remote_bookmarks@).filter(
            |x: Seq<char>| x.len() > 0,
        ),
        entry_from_raw_spec(raw).is_working_copy == (raw.is_working_copy@ == "true"@),
        entry_from_raw_spec(raw).conflict == (raw.conflict@ == "true"@),
        entry_from_raw_spec(raw).empty == (raw.empty@ == "true"@),
{
    law_drop_empty(views(raw.parents@));
    law_drop_empty(views(raw.local_bookmarks@));
    law_drop_empty(views(raw.remote_bookmarks@));
}

/// The non-empty strings of a list, in order.
fn without_empty(v: Vec<String>) -> (r: Vec<String>)
    ensures
        views(r@) == drop_empty(views(v@)),
{
    let ghost vv = views(v@);
    let mut r: Vec<String> = Vec::new();
    let mut i: usize = 0;
    assert(vv.take(0) =~= Seq::<Seq<char>>::empty());
    while i < v.len()
        invariant
            0 <= i <= v@.len(),
            vv == views(v@),
            views(r@) == drop_empty(vv.take(i as int)),
        decreases v@.len() - i,
    {
        proof {
            assert(vv.take(i + 1).drop_last() =~= vv.take(i as int));
            assert(vv.take(i + 1).last() == v@[i as int]@);
        }
        if !v[i].as_str().is_empty() {
            let ghost old_r = r@;
            r.push(v[i].clone());
            assert(views(r@) =~= views(old_r).push(v@[i as int]@));
        }
        i = i + 1;
    }
    assert(vv.take(v@.len() as int) =~= vv);
    r
}

impl LogEntry {
    /// The commit that a log line describes.
    pub fn from_raw(raw: RawLogEntry) -> (e: LogEntry)
        ensures
            e@ == entry_from_raw_spec(raw),
            e.commit_id@ == raw.commit_id@,
            e.change_id@ == raw.change_id@,
            e.author_name@ == raw.author_name@,
            e.author_email@ == raw.author_email@,
            e.author_date@ == raw.author_date@,
            e.description@ == raw.description@,
            views(e.parents@) == views(raw.parents@).filter(|x: Seq<char>| x.len() > 0),
            views(e.local_bookmarks@) == views(raw.local_bookmarks@).filter(
                |x: Seq<char>| x.len() > 0,
            ),
            views(e.remote_bookmarks@) == views(raw.remote_bookmarks@).filter(
                |x: Seq<char>| x.len() > 0,
            ),
            e.is_working_copy == (raw.is_working_copy@ == "true"@),
            e.conflict == (raw.conflict@ == "true"@),
            e.empty == (raw.empty@ == "true"@),
    {
        proof {
            law_drop_empty(views(raw.parents@));
            law_drop_empty(views(raw.local_bookmarks@));
            law_drop_empty(views(raw.remote_bookmarks@));
        }
        let is_working_copy = str_eq(raw.is_working_copy.as_str(), "true");
        let conflict = str_eq(raw.conflict.as_str(), "true");
        let empty = str_eq(raw.empty.as_str(), "true");
        LogEntry {
            commit_id: raw.commit_id,
            change_id: raw.change_id,
            author_name: raw.author_name,
            author_email: raw.author_email,
            author_date: raw.author_date,
            description: raw.description,
            parents: without_empty(raw.parents),
            local_bookmarks: without_empty(raw.local_bookmarks),
            remote_bookmarks: without_empty(raw.remote_bookmarks),
            is_working_copy,
            conflict,
            empty,
        }
    }

    /// The first line of the description.
    pub fn summary(&self) -> (s: String)
        ensures
            s@ == first_line_spec(self.description@),
    {
        let ls = lines(self.description.as_str());
        if ls.len() > 0 {
            assert(ls@[0]@ == views(ls@)[0]);
            ls[0].clone()
        } else {
            String::new()
        }
    }
}

/// The lines of `jj log` output that are not blank: the ones that may
/// describe a commit.
pub fn log_lines(output: &str) -> (r: Vec<String>)
    ensures
        views(r@) == non_blank_lines_spec(output@),
{
    let ls = lines(output);
    let ghost lv = views(ls@);
    let mut r: Vec<String> = Vec::new();
    let mut i: usize = 0;
    assert(lv.take(0) =~= Seq::<Seq<char>>::empty());
    while i < ls.len()
        invariant
            0 <= i <= ls@.len(),
            lv == views(ls@),
            lv == lines_spec(output@),
            views(r@) == keep_non_blank(lv.take(i as int)),
        decreases ls@.len() - i,
    {
        proof {
            assert(lv.take(i + 1).drop_last() =~= lv.take(i as int));
            assert(lv.take(i + 1).last() == ls@[i as int]@);
        }
        if !is_blank(ls[i].as_str()) {
            let ghost old_r = r@;
            r.push(ls[i].clone());
            assert(views(r@) =~= views(old_r).push(ls@[i as int]@));
        }
        i = i + 1;
    }
    assert(lv.take(ls@.len() as int) =~= lv);
    r
}

/// The commits of the log lines that parsed, in order; lines that did not
/// parse are skipped.
pub fn log_entries_from(parsed: Vec<Option<RawLogEntry>>) -> (r: Vec<LogEntry>)
    ensures
        entry_views(r@) == parsed_entries_spec(parsed@),
{
    let ghost all = parsed@;
    let mut r: Vec<LogEntry> = Vec::new();
    for item in it: parsed
        invariant
            it.seq() == all,
            entry_views(r@) == parsed_entries_spec(all.take(it.index() as int)),
    {
        let ghost k = it.index() as int;
        proof {
            assert(all.take(k + 1).drop_last() =~= all.take(k));
            assert(all.take(k + 1).last() == all[k]);
        }
        match item {
            Some(raw) => {
                let ghost old_r = r@;
                let e = LogEntry::from_raw(raw);
                r.push(e);
                assert(entry_views(r@) =~= entry_views(old_r).push(r@[old_r.len() as int]@));
            },
            None => {},
        }
    }
    assert(all.take(all.len() as int) =~= all);
    r
}


} // verus!
