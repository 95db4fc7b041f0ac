//! `jjit goto`: check out the commit a description names.

use crate::output::{GotoOutput, LlmOutput, LlmOutputView};
use vstd::prelude::*;

verus! {

/// What a reply to `goto` leads to.
pub enum GotoAction {
    /// Print the summary and check out the target revision.
    Checkout { summary: String, target: String },
    /// The model declined; print its explanation.
    Reply { message: String },
    /// The reply is of another kind.
    Unexpected,
}

/// What a reply to `goto` leads to.
pub fn goto_action(output: LlmOutput) -> (a: GotoAction)
    ensures
        match output@ {
            LlmOutputView::Goto { summary, target } => a matches GotoAction::Checkout {
                summary: s,
                target: t,
            } && s@ == summary && t@ == target,
            LlmOutputView::Reply { message } => a matches GotoAction::Reply { message: m }
                && m@ == message,
            _ => a is Unexpected,
        },
{
    match output {
        LlmOutput::Goto(GotoOutput { summary, target }) => GotoAction::Checkout { summary, target },
        LlmOutput::Reply(reply) => GotoAction::Reply { message: reply.message },
        _ => GotoAction::Unexpected,
    }
}

} // verus!
