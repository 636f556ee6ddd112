//! What the run of a command gave, as the text that the chat works with.

use crate::errors::{ChatError, ChatFault};
use crate::text::{lossy_decoding, lossy_text, trim, trimmed};
use vstd::prelude::*;
use vstd::string::StringExecFns;

verus! {

/// Reads the results of commands that were run for the chat.
#[derive(Debug, Clone, Copy)]
pub struct CliExecutor;

/// The cause that is reported for a command that did not succeed.
pub open spec fn command_failed() -> Seq<char> {
    "Error executing command"@
}

/// What the run of a command gave: the text of its output without the white
/// space around it, or a fault where the command did not succeed.
pub open spec fn command_output(succeeded: bool, stdout: Seq<u8>) -> Result<Seq<char>, ChatFault> {
    if succeeded {
        Ok(trimmed(lossy_decoding(stdout)))
    } else {
        Err(ChatFault::Tool(command_failed()))
    }
}

impl CliExecutor {
    /// A new executor.
    pub fn new() -> Self {
        Self
    }

    /// The text that the run of a command gave, from whether it succeeded
    /// and what it wrote to its output.
    pub fn read_output(&self, succeeded: bool, stdout: &[u8]) -> (r: Result<String, ChatError>)
        ensures
            match r {
                Ok(text) => command_output(succeeded, stdout@) == Ok::<Seq<char>, ChatFault>(
                    text@,
                ),
                Err(e) => command_output(succeeded, stdout@) == Err::<Seq<char>, ChatFault>(e@),
            },
    {
        if !succeeded {
            return Err(ChatError::Tool(String::from_str("Error executing command")));
        }
        let text = lossy_text(stdout);
        Ok(trim(text.as_str()))
    }
}

} // verus!
