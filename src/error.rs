use crate::flag::{FlagMissingArgError, UnknownFlagError};
use crate::operand::MissingOperandError;
use crate::shell::UnknownCommandError;
use vstd::prelude::*;

verus! {

/// Why one input line could not be carried out. None of these ends the shell's loop.
#[derive(Clone, Debug)]
pub enum CliError {
    UnknownCommand(UnknownCommandError),
    UnknownFlag(UnknownFlagError),
    MissingArg(FlagMissingArgError),
    MissingOperand(MissingOperandError),
    /// A failure that a callback raised, with its message.
    Failed(String),
}

impl CliError {
    /// The text that the loop prints for this error.
    pub open spec fn text(&self) -> Seq<char> {
        match self {
            CliError::UnknownCommand(e) => e.text(),
            CliError::UnknownFlag(e) => e.text(),
            CliError::MissingArg(e) => e.text(),
            CliError::MissingOperand(e) => e.text(),
            CliError::Failed(s) => s@,
        }
    }

    pub fn message(&self) -> (r: String)
        ensures
            r@ == self.text(),
    {
        match self {
            CliError::UnknownCommand(e) => e.message(),
            CliError::UnknownFlag(e) => e.message(),
            CliError::MissingArg(e) => e.message(),
            CliError::MissingOperand(e) => e.message(),
            CliError::Failed(s) => s.clone(),
        }
    }
}

} // verus!
