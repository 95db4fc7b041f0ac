//! `jjit commit`: a commit message for the working copy.

use crate::commands::{full_message, full_message_spec};
use crate::jj_util::{diff_summary_spec, parse_diff_summary, DiffEntryView};
use crate::output::{CommitOutput, LlmOutput, LlmOutputView};
use crate::strmap::opt_view;
use crate::text::{concat, decimal, decimal_spec, join, join_spec, push_str, views};
use vstd::prelude::*;

verus! {

broadcast use vstd::string::group_string_axioms;

/// How one changed file is listed to the model.
pub open spec fn change_line_spec(e: DiffEntryView) -> Seq<char> {
    "  "@ + e.kind + " - "@ + e.path
}

/// The user prompt: the number of changed files, one line per file, then
/// the diff.
pub open spec fn commit_prompt_spec(changes: Seq<DiffEntryView>, diff: Seq<char>) -> Seq<char> {
    "Files changed ("@ + decimal_spec(changes.len()) + ")\n"@ + join_spec(
        changes.map_values(|e: DiffEntryView| change_line_spec(e)),
        "\n"@,
    ) + "\n\nDiff:\n"@ + diff
}

/// The commit prompt lists every changed file, one line each, in the order
/// of the summary: after the header with the number of changes come exactly
/// as many lines as changes, line `k` naming the kind and path of change
/// `k`, then the diff.
pub proof fn law_commit_prompt_lists_every_change(changes: Seq<DiffEntryView>, diff: Seq<char>)
    ensures
        commit_prompt_spec(changes, diff) == "Files changed ("@ + decimal_spec(changes.len())
            + ")\n"@ + join_spec(
            Seq::new(changes.len(), |k: int| "  "@ + changes[k].kind + " - "@ + changes[k].path),
            "\n"@,
        ) + "\n\nDiff:\n"@ + diff,
{
    assert(changes.map_values(|e: DiffEntryView| change_line_spec(e)) =~= Seq::new(
        changes.len(),
        |k: int| "  "@ + changes[k].kind + " - "@ + changes[k].path,
    ));
}

/// The user prompt, from the output of `jj diff --summary` and of `jj diff`.
pub fn commit_user_prompt(diff_summary_output: &str, diff: &str) -> (s: String)
    ensures
        s@ == commit_prompt_spec(diff_summary_spec(diff_summary_output@), diff@),
        ({
            let changes = diff_summary_spec(diff_summary_output@);
            s@ == "Files changed ("@ + decimal_spec(changes.len()) + ")\n"@ + join_spec(
                Seq::new(
                    changes.len(),
                    |k: int| "  "@ + changes[k].kind + " - "@ + changes[k].path,
                ),
                "\n"@,
            ) + "\n\nDiff:\n"@ + diff@
        }),
{
    proof {
        law_commit_prompt_lists_every_change(diff_summary_spec(diff_summary_output@), diff@);
    }
    let changes = parse_diff_summary(diff_summary_output);
    let ghost cv = crate::jj_util::diff_views(changes@);
    let mut lines: Vec<String> = Vec::new();
    let mut i: usize = 0;
    while i < changes.len()
        invariant
            0 <= i <= changes@.len(),
            cv == crate::jj_util::diff_views(changes@),
            views(lines@) == cv.take(i as int).map_values(|e: DiffEntryView| change_line_spec(e)),
        decreases changes@.len() - i,
    {
        let mut l = concat("  ", changes[i].kind.as_str());
        push_str(&mut l, " - ");
        push_str(&mut l, changes[i].path.as_str());
        let ghost old_lines = lines@;
        lines.push(l);
        proof {
            assert(cv[i as int] == changes@[i as int]@);
            assert(cv.take(i + 1) =~= cv.take(i as int).push(cv[i as int]));
            assert(views(lines@) =~= views(old_lines).push(change_line_spec(cv[i as int])));
            assert(cv.take(i + 1).map_values(|e: DiffEntryView| change_line_spec(e)) =~= cv.take(
                i as int,
            ).map_values(|e: DiffEntryView| change_line_spec(e)).push(change_line_spec(cv[i as int])));
        }
        i = i + 1;
    }
    assert(cv.take(changes@.len() as int) =~= cv);
    let mut s = concat("Files changed (", decimal(changes.len()).as_str());
    push_str(&mut s, ")\n");
    push_str(&mut s, join(&lines, "\n").as_str());
    push_str(&mut s, "\n\nDiff:\n");
    push_str(&mut s, diff);
    s
}

/// What a reply to `commit` leads to.
pub enum CommitAction {
    /// Commit the working copy with this message.
    Commit { message: String },
    /// The model declined; print its explanation.
    Reply { message: String },
    /// The reply is of another kind.
    Unexpected,
}

/// What a reply to `commit` leads to: a commit reply gives the commit
/// message (with its body after a blank line), a declining reply its
/// explanation, and any other reply is unexpected.
pub fn commit_action(output: LlmOutput) -> (a: CommitAction)
    ensures
        match output@ {
            LlmOutputView::Commit { message, body, .. } => a matches CommitAction::Commit {
                message: m,
            } && m@ == full_message_spec(message, body),
            LlmOutputView::Reply { message } => a matches CommitAction::Reply { message: m }
                && m@ == message,
            _ => a is Unexpected,
        },
{
    match output {
        LlmOutput::Commit(CommitOutput { message, body, .. }) => {
            CommitAction::Commit { message: full_message(message, body) }
        },
        LlmOutput::Reply(reply) => CommitAction::Reply { message: reply.message },
        _ => CommitAction::Unexpected,
    }
}

} // verus!
