use crate::config::{Callback, Config, ReturnCode};
use crate::context::Context;
use crate::error::CliError;
use crate::flag::{flags_wf, FlagSet, FlagView};
use crate::operand::{operand_texts, Operand};
use crate::shell::Shell;
use vstd::prelude::*;

verus! {

/// The mathematical form of a [`Command`], but for its configuration.
pub struct CommandView {
    pub flags: Seq<FlagView>,
    pub operands: Seq<Seq<char>>,
}

/// One parsed command line: the configuration it runs, the flags bound and the operands, in order.
#[derive(Debug)]
pub struct Command<'a, C> {
    config: &'a Config<C>,
    flags: FlagSet<'a>,
    operands: Vec<Operand>,
}

impl<'a, C> View for Command<'a, C> {
    type V = CommandView;

    closed spec fn view(&self) -> CommandView {
        CommandView { flags: self.flags@, operands: operand_texts(self.operands@) }
    }
}

impl<'a, C> Command<'a, C> {
    pub closed spec fn spec_config(&self) -> Config<C> {
        *self.config
    }

    pub open spec fn wf(&self) -> bool {
        flags_wf(self@.flags)
    }

    pub fn new(config: &'a Config<C>, flags: FlagSet<'a>, operands: Vec<Operand>) -> (r: Command<'a, C>)
        ensures
            r@ == (CommandView { flags: flags@, operands: operand_texts(operands@) }),
            r.spec_config() == *config,
    {
        Command { config, flags, operands }
    }

    pub fn config(&self) -> (r: &Config<C>)
        ensures
            *r == self.spec_config(),
    {
        self.config
    }

    pub fn flags(&self) -> (r: &FlagSet<'a>)
        ensures
            r@ == self@.flags,
    {
        &self.flags
    }

    pub fn flags_mut(&mut self) -> (r: &mut FlagSet<'a>)
        ensures
            r@ == old(self)@.flags,
            final(self)@ == (CommandView { flags: final(r)@, operands: old(self)@.operands }),
            final(self).spec_config() == old(self).spec_config(),
    {
        &mut self.flags
    }

    pub fn operands(&self) -> (r: &Vec<Operand>)
        ensures
            operand_texts(r@) == self@.operands,
    {
        &self.operands
    }

    pub fn operands_mut(&mut self) -> (r: &mut Vec<Operand>)
        ensures
            operand_texts(r@) == old(self)@.operands,
            final(self)@ == (CommandView { flags: old(self)@.flags, operands: operand_texts(final(r)@) }),
            final(self).spec_config() == old(self).spec_config(),
    {
        &mut self.operands
    }
}

impl<'a, C: Callback> Command<'a, C> {
    /// Runs the configuration's callback on this command.
    pub fn execute(&self, shell: &Shell<C>, context: &mut Context) -> (r: Result<ReturnCode, CliError>) {
        self.config.callback().call(self, shell, context)
    }
}

} // verus!
