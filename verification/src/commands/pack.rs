//! `jjit pack`: combine the commits the model selects.

use crate::commands::{full_message, full_message_spec};
use crate::jj_util::{
    call_is, describe_change, entry_views, new_commit, squash_into, JjCall, LogEntry, LogEntryView,
};
use crate::output::{LlmOutput, LlmOutputView, PackOutput};
use crate::text::{str_eq, views};
use vstd::prelude::*;

verus! {

broadcast use vstd::string::group_string_axioms;

/// The commit id of jj's root commit.
pub const ROOT_COMMIT_ID: &'static str = "0000000000000000000000000000000000000000";

/// Whether a commit is worth showing to the model: not empty and not the root.
pub open spec fn is_meaningful(e: LogEntryView) -> bool {
    !e.empty && e.commit_id != ROOT_COMMIT_ID@
}

/// The commits worth showing to the model, in log order.
pub open spec fn meaningful_spec(es: Seq<LogEntryView>) -> Seq<LogEntryView>
    decreases es.len(),
{
    if es.len() == 0 {
        seq![]
    } else if is_meaningful(es.last()) {
        meaningful_spec(es.drop_last()).push(es.last())
    } else {
        meaningful_spec(es.drop_last())
    }
}

/// The commits the reply selects that are not empty, in log order.
pub open spec fn selected_spec(es: Seq<LogEntryView>, commits: Seq<Seq<char>>) -> Seq<LogEntryView>
    decreases es.len(),
{
    if es.len() == 0 {
        seq![]
    } else if commits.contains(es.last().commit_id) && !es.last().empty {
        selected_spec(es.drop_last(), commits).push(es.last())
    } else {
        selected_spec(es.drop_last(), commits)
    }
}

/// The commits shown to the model are exactly the meaningful commits of
/// the history: each is neither empty nor the root commit, and each
/// meaningful commit of the history is shown.
pub proof fn law_meaningful_entries(es: Seq<LogEntryView>)
    ensures
        meaningful_spec(es).len() <= es.len(),
        forall|i: int|
            0 <= i < meaningful_spec(es).len() ==> is_meaningful(#[trigger] meaningful_spec(es)[i])
                && es.contains(meaningful_spec(es)[i]),
        forall|j: int|
            0 <= j < es.len() && is_meaningful(#[trigger] es[j]) ==> meaningful_spec(es).contains(
                es[j],
            ),
    decreases es.len(),
{
    if es.len() > 0 {
        let init = es.drop_last();
        law_meaningful_entries(init);
        let m = meaningful_spec(es);
        let mi = meaningful_spec(init);
        assert forall|i: int| 0 <= i < m.len() implies is_meaningful(#[trigger] m[i]) && es.contains(
            m[i],
        ) by {
            if i < mi.len() {
                assert(m[i] == mi[i]);
                let k = choose|k: int| 0 <= k < init.len() && init[k] == mi[i];
                assert(es[k] == init[k]);
            } else {
                assert(m[i] == es.last());
                assert(es[es.len() - 1] == es.last());
            }
        }
        assert forall|j: int| 0 <= j < es.len() && is_meaningful(#[trigger] es[j]) implies m.contains(
            es[j],
        ) by {
            if j < init.len() {
                assert(init[j] == es[j]);
                let k = choose|k: int| 0 <= k < mi.len() && mi[k] == es[j];
                assert(m[k] == mi[k]);
            } else {
                assert(m[m.len() - 1] == es.last());
            }
        }
    }
}

/// The commits a pack combines are exactly the non-empty commits of the
/// history that the reply lists: each selected commit is such a commit,
/// and each such commit is selected.
pub proof fn law_selected_commits(es: Seq<LogEntryView>, commits: Seq<Seq<char>>)
    ensures
        selected_spec(es, commits).len() <= es.len(),
        forall|i: int|
            0 <= i < selected_spec(es, commits).len() ==> !(#[trigger] selected_spec(
                es,
                commits,
            )[i]).empty && commits.contains(selected_spec(es, commits)[i].commit_id) && es.contains(
                selected_spec(es, commits)[i],
            ),
        forall|j: int|
            0 <= j < es.len() && !(#[trigger] es[j]).empty && commits.contains(es[j].commit_id)
                ==> selected_spec(es, commits).contains(es[j]),
    decreases es.len(),
{
    if es.len() > 0 {
        let init = es.drop_last();
        law_selected_commits(init, commits);
        let m = selected_spec(es, commits);
        let mi = selected_spec(init, commits);
        assert forall|i: int| 0 <= i < m.len() implies !(#[trigger] m[i]).empty && commits.contains(
            m[i].commit_id,
        ) && es.contains(m[i]) by {
            if i < mi.len() {
                assert(m[i] == mi[i]);
                let k = choose|k: int| 0 <= k < init.len() && init[k] == mi[i];
                assert(es[k] == init[k]);
            } else {
                assert(m[i] == es.last());
                assert(es[es.len() - 1] == es.last());
            }
        }
        assert forall|j: int|
            0 <= j < es.len() && !(#[trigger] es[j]).empty && commits.contains(
                es[j].commit_id,
            ) implies m.contains(es[j]) by {
            if j < init.len() {
                assert(init[j] == es[j]);
                let k = choose|k: int| 0 <= k < mi.len() && mi[k] == es[j];
                assert(m[k] == mi[k]);
            } else {
                assert(m[m.len() - 1] == es.last());
            }
        }
    }
}

/// The commits shown to the model are the history's commits that are
/// neither empty nor the root commit, in log order.
pub proof fn law_meaningful_is_filter(es: Seq<LogEntryView>)
    ensures
        meaningful_spec(es) == es.filter(
            |e: LogEntryView| !e.empty && e.commit_id != ROOT_COMMIT_ID@,
        ),
    decreases es.len(),
{
    reveal(Seq::filter);
    if es.len() > 0 {
        law_meaningful_is_filter(es.drop_last());
    } else {
        assert(es =~= Seq::<LogEntryView>::empty());
    }
}

/// The commits a pack selects are the history's non-empty commits whose
/// commit id the reply lists, in log order.
pub proof fn law_selected_is_filter(es: Seq<LogEntryView>, commits: Seq<Seq<char>>)
    ensures
        selected_spec(es, commits) == es.filter(
            |e: LogEntryView| !e.empty && commits.contains(e.commit_id),
        ),
    decreases es.len(),
{
    reveal(Seq::filter);
    if es.len() > 0 {
        law_selected_is_filter(es.drop_last(), commits);
    } else {
        assert(es =~= Seq::<LogEntryView>::empty());
    }
}

/// A pack combines commits exactly when the reply selects at least two
/// non-empty commits of the history: then every selected commit after the
/// first (in log order) is squashed into the first, and the count is the
/// number of selected commits.  With one selected commit or none, nothing
/// is packed.
pub proof fn law_pack_plan_counts(
    es: Seq<LogEntryView>,
    summary: Seq<char>,
    commits: Seq<Seq<char>>,
    message: Seq<char>,
    body: Option<Seq<char>>,
    plan: PackPlan,
)
    requires
        commits.len() > 0,
        pack_plan_ok(es, LlmOutputView::Pack { summary, commits, message, body }, plan),
    ensures
        ({
            let sel = es.filter(|e: LogEntryView| !e.empty && commits.contains(e.commit_id));
            &&& (plan is OnlyOne) == (sel.len() <= 1)
            &&& sel.len() >= 2 ==> (plan matches PackPlan::Squash { target, sources, count, .. }
                && count == sel.len() && target@ == sel[0].change_id && views(sources@)
                == Seq::new((sel.len() - 1) as nat, |k: int| sel[k + 1].commit_id))
        }),
{
    law_selected_is_filter(es, commits);
    let sel = selected_spec(es, commits);
    if sel.len() >= 2 {
        assert(commit_ids(sel.skip(1)) =~= Seq::new((sel.len() - 1) as nat, |k: int| sel[k + 1].commit_id));
    }
}

/// A copy of a list of strings.
fn copy_strings(v: &Vec<String>) -> (r: Vec<String>)
    ensures
        views(r@) == views(v@),
{
    let mut r: Vec<String> = Vec::new();
    let mut i: usize = 0;
    while i < v.len()
        invariant
            0 <= i <= v@.len(),
            views(r@) == views(v@).take(i as int),
        decreases v@.len() - i,
    {
        let ghost old_r = r@;
        r.push(v[i].clone());
        assert(views(r@) =~= views(old_r).push(v@[i as int]@));
        assert(views(v@).take(i + 1) =~= views(v@).take(i as int).push(v@[i as int]@));
        i = i + 1;
    }
    assert(views(v@).take(v@.len() as int) =~= views(v@));
    r
}

/// A copy of a commit.
fn copy_entry(e: &LogEntry) -> (r: LogEntry)
    ensures
        r@ == e@,
{
    LogEntry {
        commit_id: e.commit_id.clone(),
        change_id: e.change_id.clone(),
        author_name: e.author_name.clone(),
        author_email: e.author_email.clone(),
        author_date: e.author_date.clone(),
        description: e.description.clone(),
        parents: copy_strings(&e.parents),
        local_bookmarks: copy_strings(&e.local_bookmarks),
        remote_bookmarks: copy_strings(&e.remote_bookmarks),
        is_working_copy: e.is_working_copy,
        conflict: e.conflict,
        empty: e.empty,
    }
}

/// The commits worth showing to the model: the empty commits and the root
/// commit are left out.
pub fn meaningful_entries(entries: &Vec<LogEntry>) -> (r: Vec<LogEntry>)
    ensures
        entry_views(r@) == meaningful_spec(entry_views(entries@)),
        entry_views(r@) == entry_views(entries@).filter(
            |e: LogEntryView| !e.empty && e.commit_id != ROOT_COMMIT_ID@,
        ),
{
    proof {
        law_meaningful_is_filter(entry_views(entries@));
    }
    let ghost ev = entry_views(entries@);
    let mut r: Vec<LogEntry> = Vec::new();
    let mut i: usize = 0;
    assert(ev.take(0) =~= Seq::<LogEntryView>::empty());
    while i < entries.len()
        invariant
            0 <= i <= entries@.len(),
            ev == entry_views(entries@),
            entry_views(r@) == meaningful_spec(ev.take(i as int)),
        decreases entries@.len() - i,
    {
        proof {
            assert(ev.take(i + 1).drop_last() =~= ev.take(i as int));
            assert(ev.take(i + 1).last() == entries@[i as int]@);
        }
        if !entries[i].empty && !str_eq(entries[i].commit_id.as_str(), ROOT_COMMIT_ID) {
            let ghost old_r = r@;
            r.push(copy_entry(&entries[i]));
            assert(entry_views(r@) =~= entry_views(old_r).push(entries@[i as int]@));
        }
        i = i + 1;
    }
    assert(ev.take(entries@.len() as int) =~= ev);
    r
}

/// Whether `id` is one of `ids`.
fn listed(ids: &Vec<String>, id: &String) -> (b: bool)
    ensures
        b == views(ids@).contains(id@),
{
    let mut i: usize = 0;
    while i < ids.len()
        invariant
            0 <= i <= ids@.len(),
            forall|k: int| 0 <= k < i ==> ids@[k]@ != id@,
        decreases ids@.len() - i,
    {
        if ids[i] == *id {
            assert(views(ids@)[i as int] == id@);
            return true;
        }
        i = i + 1;
    }
    assert forall|k: int| 0 <= k < views(ids@).len() implies views(ids@)[k] != id@ by {
        assert(views(ids@)[k] == ids@[k]@);
    }
    false
}

/// What a reply to `pack` leads to.
pub enum PackPlan {
    /// The model declined; print its explanation.
    Reply { message: String },
    /// The reply is of another kind.
    Unexpected,
    /// The reply selects no commit: an error, after printing the summary.
    NoCommits { summary: String },
    /// At most one non-empty commit is selected: nothing to combine.
    OnlyOne { summary: String },
    /// Squash each of `sources` into the commit with change id `target`,
    /// then give it `message` and start a new working copy on top of it.
    Squash { summary: String, target: String, sources: Vec<String>, message: String, count: usize },
}

/// The commit ids of some commits.
pub open spec fn commit_ids(es: Seq<LogEntryView>) -> Seq<Seq<char>> {
    es.map_values(|e: LogEntryView| e.commit_id)
}

/// What a reply to `pack` leads to, given the history.  The selected
/// commits are the non-empty commits of the history that the reply lists,
/// in log order; the first one receives the others.
pub open spec fn pack_plan_ok(es: Seq<LogEntryView>, output: LlmOutputView, plan: PackPlan) -> bool {
    match output {
        LlmOutputView::Pack { summary, commits, message, body } => if commits.len() == 0 {
            plan matches PackPlan::NoCommits { summary: s } && s@ == summary
        } else if selected_spec(es, commits).len() <= 1 {
            plan matches PackPlan::OnlyOne { summary: s } && s@ == summary
        } else {
            let sel = selected_spec(es, commits);
            plan matches PackPlan::Squash { summary: s, target, sources, message: m, count }
                && s@ == summary && target@ == sel[0].change_id && views(sources@) == commit_ids(
                sel.skip(1),
            ) && m@ == full_message_spec(message, body) && count == sel.len()
        },
        LlmOutputView::Reply { message } => plan matches PackPlan::Reply { message: m } && m@
            == message,
        _ => plan is Unexpected,
    }
}

/// The selected commits: the non-empty commits of the history that `commits` lists.
fn selected(entries: &Vec<LogEntry>, commits: &Vec<String>) -> (r: Vec<LogEntry>)
    ensures
        entry_views(r@) == selected_spec(entry_views(entries@), views(commits@)),
{
    let ghost ev = entry_views(entries@);
    let ghost cv = views(commits@);
    let mut r: Vec<LogEntry> = Vec::new();
    let mut i: usize = 0;
    assert(ev.take(0) =~= Seq::<LogEntryView>::empty());
    while i < entries.len()
        invariant
            0 <= i <= entries@.len(),
            ev == entry_views(entries@),
            cv == views(commits@),
            entry_views(r@) == selected_spec(ev.take(i as int), cv),
        decreases entries@.len() - i,
    {
        proof {
            assert(ev.take(i + 1).drop_last() =~= ev.take(i as int));
            assert(ev.take(i + 1).last() == entries@[i as int]@);
        }
        if listed(commits, &entries[i].commit_id) && !entries[i].empty {
            let ghost old_r = r@;
            r.push(copy_entry(&entries[i]));
            assert(entry_views(r@) =~= entry_views(old_r).push(entries@[i as int]@));
        }
        i = i + 1;
    }
    assert(ev.take(entries@.len() as int) =~= ev);
    r
}

/// What a reply to `pack` leads to, given the history it was asked about.
pub fn pack_plan(entries: &Vec<LogEntry>, output: LlmOutput) -> (plan: PackPlan)
    ensures
        pack_plan_ok(entry_views(entries@), output@, plan),
        match output@ {
            LlmOutputView::Pack { commits, .. } => commits.len() > 0 ==> ({
                let sel = entry_views(entries@).filter(
                    |e: LogEntryView| !e.empty && commits.contains(e.commit_id),
                );
                &&& (plan is OnlyOne) == (sel.len() <= 1)
                &&& sel.len() >= 2 ==> (plan matches PackPlan::Squash { count, .. } && count
                    == sel.len())
            }),
            _ => true,
        },
{
    proof {
        match output@ {
            LlmOutputView::Pack { commits, .. } => {
                law_selected_is_filter(entry_views(entries@), commits);
            },
            _ => {},
        }
    }
    match output {
        LlmOutput::Pack(PackOutput { summary, commits, message, body }) => {
            if commits.len() == 0 {
                return PackPlan::NoCommits { summary };
            }
            let sel = selected(entries, &commits);
            if sel.len() <= 1 {
                return PackPlan::OnlyOne { summary };
            }
            let ghost sv = entry_views(sel@);
            let target = sel[0].change_id.clone();
            let mut sources: Vec<String> = Vec::new();
            let mut i: usize = 1;
            while i < sel.len()
                invariant
                    1 <= i <= sel@.len(),
                    sv == entry_views(sel@),
                    views(sources@) == commit_ids(sv.subrange(1, i as int)),
                decreases sel@.len() - i,
            {
                let ghost old_s = sources@;
                sources.push(sel[i].commit_id.clone());
                proof {
                    assert(views(sources@) =~= views(old_s).push(sv[i as int].commit_id));
                    assert(sv.subrange(1, i + 1) =~= sv.subrange(1, i as int).push(sv[i as int]));
                    assert(commit_ids(sv.subrange(1, i + 1)) =~= commit_ids(
                        sv.subrange(1, i as int),
                    ).push(sv[i as int].commit_id));
                }
                i = i + 1;
            }
            assert(sv.subrange(1, sel@.len() as int) =~= sv.skip(1));
            let count = sel.len();
            let message = full_message(message, body);
            PackPlan::Squash { summary, target, sources, message, count }
        },
        LlmOutput::Reply(reply) => PackPlan::Reply { message: reply.message },
        _ => PackPlan::Unexpected,
    }
}

/// The jj runs that carry out a squash plan: each source squashed into the
/// target, then the target described with the message, then a new working
/// copy on top of the target.
pub open spec fn pack_calls_ok(
    target: Seq<char>,
    sources: Seq<Seq<char>>,
    message: Seq<char>,
    calls: Seq<JjCall>,
) -> bool {
    &&& calls.len() == sources.len() + 2
    &&& forall|i: int|
        0 <= i < sources.len() ==> call_is(
            #[trigger] calls[i],
            seq!["squash"@, "--from"@, sources[i], "--into"@, target, "-m"@, message],
            "Failed to squash commit"@,
        )
    &&& call_is(
        calls[sources.len() as int],
        seq!["describe"@, "-r"@, target, "-m"@, message],
        "Failed to describe commit by change id"@,
    )
    &&& call_is(
        calls[sources.len() + 1int],
        seq!["new"@, target],
        "Failed to create new commit"@,
    )
}

/// The jj runs that carry out a squash plan.
pub fn pack_calls(target: &str, sources: &Vec<String>, message: &str) -> (calls: Vec<JjCall>)
    ensures
        pack_calls_ok(target@, views(sources@), message@, calls@),
{
    let mut calls: Vec<JjCall> = Vec::new();
    let mut i: usize = 0;
    while i < sources.len()
        invariant
            0 <= i <= sources@.len(),
            calls@.len() == i,
            forall|k: int|
                0 <= k < i ==> call_is(
                    #[trigger] calls@[k],
                    seq!["squash"@, "--from"@, sources@[k]@, "--into"@, target@, "-m"@, message@],
                    "Failed to squash commit"@,
                ),
        decreases sources@.len() - i,
    {
        calls.push(squash_into(sources[i].as_str(), target, message));
        i = i + 1;
    }
    calls.push(describe_change(target, message));
    calls.push(new_commit(target));
    proof {
        assert forall|k: int| 0 <= k < views(sources@).len() implies call_is(
            #[trigger] calls@[k],
            seq!["squash"@, "--from"@, views(sources@)[k], "--into"@, target@, "-m"@, message@],
            "Failed to squash commit"@,
        ) by {
            assert(views(sources@)[k] == sources@[k]@);
        }
    }
    calls
}

} // verus!
