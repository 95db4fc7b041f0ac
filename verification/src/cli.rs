//! The command line: the commands, their arguments and the global flags,
//! and how the flags override the configuration.

use crate::config::Config;
use crate::strmap::lookup;
use vstd::prelude::*;

verus! {

/// The parsed command line.
pub struct Cli {
    /// The command to run.
    pub command: Commands,
    /// `--verbose`: enable verbose output.
    pub verbose: bool,
    /// `--show-prompt`: show the prompts sent to the model.
    pub show_prompt: bool,
    /// `--debug`: show detailed debug information.
    pub debug: bool,
    /// `--no-thinking`: hide the model's thinking.
    pub no_thinking: bool,
    /// `--no-color`: disable coloured output.
    pub no_color: bool,
}

/// The commands.
pub enum Commands {
    /// Generate a commit message for the working copy and commit.
    Commit { dry_run: bool },
    /// Find a commit from a description and check it out.
    Goto { query: String, dry_run: bool },
    /// Combine the commits a description names.
    Pack { query: String, dry_run: bool },
    /// Manage the configuration.
    Config { action: ConfigAction },
}

/// The configuration commands.
pub enum ConfigAction {
    /// Set a value in the project-level file, or with `global` in the user-level file.
    SetValue { key: String, value: String, global: bool },
    /// Print a value.
    Get { key: String },
    /// Print all values.
    List,
}

/// The configuration after the global flags: each flag that is given
/// sets its setting, and no other setting changes.
pub open spec fn cli_overrides_spec(
    m: Map<Seq<char>, Seq<char>>,
    verbose: bool,
    show_prompt: bool,
    debug: bool,
    no_thinking: bool,
    no_color: bool,
) -> Map<Seq<char>, Seq<char>> {
    let m1 = if verbose {
        m.insert("verbose"@, "true"@)
    } else {
        m
    };
    let m2 = if show_prompt {
        m1.insert("show_prompt"@, "true"@)
    } else {
        m1
    };
    let m3 = if debug {
        m2.insert("debug"@, "true"@)
    } else {
        m2
    };
    let m4 = if no_thinking {
        m3.insert("show_thinking"@, "false"@)
    } else {
        m3
    };
    if no_color {
        m4.insert("no_color"@, "true"@)
    } else {
        m4
    }
}

/// Command-line flags override the configuration: each flag given sets its
/// own setting (`--verbose`, `--show-prompt` and `--debug` to `true`,
/// `--no-thinking` sets `show_thinking` to `false`, `--no-color` sets
/// `no_color` to `true`), and every other setting keeps its value.
pub proof fn law_cli_overrides(
    m: Map<Seq<char>, Seq<char>>,
    verbose: bool,
    show_prompt: bool,
    debug: bool,
    no_thinking: bool,
    no_color: bool,
    key: Seq<char>,
)
    ensures
        lookup(cli_overrides_spec(m, verbose, show_prompt, debug, no_thinking, no_color), key) == (
        if key == "verbose"@ && verbose {
            Some("true"@)
        } else if key == "show_prompt"@ && show_prompt {
            Some("true"@)
        } else if key == "debug"@ && debug {
            Some("true"@)
        } else if key == "show_thinking"@ && no_thinking {
            Some("false"@)
        } else if key == "no_color"@ && no_color {
            Some("true"@)
        } else {
            lookup(m, key)
        }),
{
    reveal_strlit("verbose");
    reveal_strlit("show_prompt");
    reveal_strlit("debug");
    reveal_strlit("show_thinking");
    reveal_strlit("no_color");
    assert("verbose"@.len() == 7 && "show_prompt"@.len() == 11 && "debug"@.len() == 5);
    assert("show_thinking"@.len() == 13 && "no_color"@.len() == 8);
}

/// Applies the global flags of the command line to the configuration.
pub fn apply_cli_overrides(config: &mut Config, cli: &Cli)
    ensures
        final(config)@ == cli_overrides_spec(
            old(config)@,
            cli.verbose,
            cli.show_prompt,
            cli.debug,
            cli.no_thinking,
            cli.no_color,
        ),
{
    if cli.verbose {
        config.set("verbose", "true");
    }
    if cli.show_prompt {
        config.set("show_prompt", "true");
    }
    if cli.debug {
        config.set("debug", "true");
    }
    if cli.no_thinking {
        config.set("show_thinking", "false");
    }
    if cli.no_color {
        config.set("no_color", "true");
    }
}

} // verus!
