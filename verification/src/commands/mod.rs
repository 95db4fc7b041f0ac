//! The decisions of the commands: which options apply, what the prompts
//! say, and what a reply of the model leads to.  Running `jj`, calling the
//! model and printing are the caller's part.

pub mod commit;
pub mod config;
pub mod goto;
pub mod pack;

use crate::config::{resolve_language_spec, Config};
use crate::jj_util::{LogEntry, LogEntryView};
use crate::strmap::{lookup, opt_view};
use crate::text::{concat, join, join_spec, push_str, str_eq, views};
use vstd::prelude::*;

verus! {

broadcast use vstd::string::group_string_axioms;

/// The options a command reads from the configuration.
pub struct RunFlags {
    pub verbose: bool,
    pub show_prompt: bool,
    pub show_thinking: bool,
    pub debug: bool,
}

/// The options in force: `verbose`, `show_prompt` and `debug` only when set
/// to `true`; `show_thinking` unless set to `false`.
pub fn run_flags(config: &Config) -> (f: RunFlags)
    ensures
        f.verbose == (lookup(config@, "verbose"@) == Some("true"@)),
        f.show_prompt == (lookup(config@, "show_prompt"@) == Some("true"@)),
        f.show_thinking == (lookup(config@, "show_thinking"@) != Some("false"@)),
        f.debug == (lookup(config@, "debug"@) == Some("true"@)),
{
    RunFlags {
        verbose: setting_is(config, "verbose", "true"),
        show_prompt: setting_is(config, "show_prompt", "true"),
        show_thinking: !setting_is(config, "show_thinking", "false"),
        debug: setting_is(config, "debug", "true"),
    }
}

/// Whether a setting is present with exactly this value.
fn setting_is(config: &Config, key: &str, value: &str) -> (b: bool)
    ensures
        b == (lookup(config@, key@) == Some(value@)),
{
    match config.get(key) {
        Some(v) => str_eq(v.as_str(), value),
        None => false,
    }
}

/// Where the model is reached: the `base_url` and `model` settings, or
/// their defaults.
pub struct ClientSettings {
    pub base_url: String,
    pub model: String,
}

/// The value of a setting, or a default.
pub open spec fn setting_or(m: Map<Seq<char>, Seq<char>>, key: Seq<char>, default: Seq<char>) -> Seq<
    char,
> {
    match lookup(m, key) {
        Some(v) => v,
        None => default,
    }
}

/// The endpoint and model to use.
pub fn client_settings(config: &Config) -> (s: ClientSettings)
    ensures
        s.base_url@ == setting_or(config@, "base_url"@, "https://api.deepseek.com"@),
        s.model@ == setting_or(config@, "model"@, "deepseek-v4-flash"@),
{
    let base_url = match config.get("base_url") {
        Some(v) => v,
        None => "https://api.deepseek.com".to_owned(),
    };
    let model = match config.get("model") {
        Some(v) => v,
        None => "deepseek-v4-flash".to_owned(),
    };
    ClientSettings { base_url, model }
}

/// The system prompt with a request to answer in the configured language,
/// unless that language is empty or English.
pub open spec fn language_hint_spec(prompt: Seq<char>, lang: Seq<char>) -> Seq<char> {
    if lang.len() > 0 && lang != "en"@ {
        prompt + "\n\nYou MUST respond in "@ + lang + " language."@
    } else {
        prompt
    }
}

/// Adds the language request to a system prompt; `lang_env` is the value of
/// the `LANG` environment variable.
pub fn add_language_hint(prompt: &str, config: &Config, lang_env: Option<&str>) -> (s: String)
    ensures
        s@ == language_hint_spec(
            prompt@,
            resolve_language_spec(
                lookup(config@, "language"@),
                match lang_env {
                    Some(l) => Some(l@),
                    None => None,
                },
            ),
        ),
{
    let lang = config.resolve_language(lang_env);
    if !lang.as_str().is_empty() && !str_eq(lang.as_str(), "en") {
        let mut s = concat(prompt, "\n\nYou MUST respond in ");
        push_str(&mut s, lang.as_str());
        push_str(&mut s, " language.");
        s
    } else {
        prompt.to_owned()
    }
}

/// A commit message: the message, and the body after a blank line when
/// there is one.
pub open spec fn full_message_spec(message: Seq<char>, body: Option<Seq<char>>) -> Seq<char> {
    match body {
        Some(b) => message + "\n\n"@ + b,
        None => message,
    }
}

/// The commit message made of a message and an optional body.
pub fn full_message(message: String, body: Option<String>) -> (s: String)
    ensures
        s@ == full_message_spec(message@, opt_view(body)),
{
    match body {
        Some(b) => {
            let mut s = concat(message.as_str(), "\n\n");
            push_str(&mut s, b.as_str());
            s
        },
        None => message,
    }
}

/// How one commit is shown to the model.
pub open spec fn entry_text_spec(e: LogEntryView) -> Seq<char> {
    "Commit ID: "@ + e.commit_id + "\nAuthor: "@ + e.author_name + " <"@ + e.author_email
        + ">\nDescription: "@ + e.description + "\nDate: "@ + e.author_date + "\n"@
}

/// A commit is shown to the model with its id, its author's name and
/// email, its whole description and its date, each after its label.
pub proof fn law_entry_text(e: LogEntryView)
    ensures
        entry_text_spec(e) == "Commit ID: "@ + e.commit_id + "\nAuthor: "@ + e.author_name + " <"@
            + e.author_email + ">\nDescription: "@ + e.description + "\nDate: "@ + e.author_date
            + "\n"@,
{
}

/// How one commit is shown to the model.
pub fn entry_text(e: &LogEntry) -> (s: String)
    ensures
        s@ == entry_text_spec(e@),
        s@ == "Commit ID: "@ + e.commit_id@ + "\nAuthor: "@ + e.author_name@ + " <"@
            + e.author_email@ + ">\nDescription: "@ + e.description@ + "\nDate: "@
            + e.author_date@ + "\n"@,
{
    let mut s = concat("Commit ID: ", e.commit_id.as_str());
    push_str(&mut s, "\nAuthor: ");
    push_str(&mut s, e.author_name.as_str());
    push_str(&mut s, " <");
    push_str(&mut s, e.author_email.as_str());
    push_str(&mut s, ">\nDescription: ");
    push_str(&mut s, e.description.as_str());
    push_str(&mut s, "\nDate: ");
    push_str(&mut s, e.author_date.as_str());
    push_str(&mut s, "\n");
    s
}

/// The history as shown to the model: each commit's text, separated by
/// blank lines.
pub open spec fn log_text_spec(entries: Seq<LogEntryView>) -> Seq<char> {
    join_spec(entries.map_values(|e: LogEntryView| entry_text_spec(e)), "\n"@)
}

/// The history as shown to the model.
pub fn log_text(entries: &Vec<LogEntry>) -> (s: String)
    ensures
        s@ == log_text_spec(crate::jj_util::entry_views(entries@)),
{
    let ghost ev = crate::jj_util::entry_views(entries@);
    let mut parts: Vec<String> = Vec::new();
    let mut i: usize = 0;
    while i < entries.len()
        invariant
            0 <= i <= entries@.len(),
            ev == crate::jj_util::entry_views(entries@),
            views(parts@) == ev.take(i as int).map_values(|e: LogEntryView| entry_text_spec(e)),
        decreases entries@.len() - i,
    {
        let t = entry_text(&entries[i]);
        let ghost old_parts = parts@;
        parts.push(t);
        proof {
            assert(ev.take(i + 1) =~= ev.take(i as int).push(ev[i as int]));
            assert(views(parts@) =~= views(old_parts).push(entry_text_spec(ev[i as int])));
            assert(ev.take(i + 1).map_values(|e: LogEntryView| entry_text_spec(e)) =~= ev.take(
                i as int,
            ).map_values(|e: LogEntryView| entry_text_spec(e)).push(entry_text_spec(ev[i as int])));
        }
        i = i + 1;
    }
    assert(ev.take(entries@.len() as int) =~= ev);
    join(&parts, "\n")
}

/// The user prompt of `goto` and `pack`: the request, then the history.
pub open spec fn history_prompt_spec(query: Seq<char>, log_text: Seq<char>) -> Seq<char> {
    "User request: "@ + query + "\n\nCommit history:\n"@ + log_text
}

/// The user prompt of `goto` and `pack`.
pub fn history_prompt(query: &str, log_text: &str) -> (s: String)
    ensures
        s@ == history_prompt_spec(query@, log_text@),
{
    let mut s = concat("User request: ", query);
    push_str(&mut s, "\n\nCommit history:\n");
    push_str(&mut s, log_text);
    s
}

} // verus!
