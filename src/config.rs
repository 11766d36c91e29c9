use crate::command::Command;
use crate::context::Context;
use crate::error::CliError;
use crate::flag::{unique_ids, FlagSpecSet, FlagSpecView};
use crate::shell::Shell;
use vstd::prelude::*;

verus! {

/// What a command tells the loop that ran it.
#[derive(Clone, Copy, Debug, PartialEq, Eq, Structural)]
pub enum ReturnCode {
    /// Show the prompt again.
    Continue,
    /// End the loop.
    Abort,
}

/// The work that a command does when it runs. A type implements it for each command it
/// stands for, often as an enum with one variant per command.
pub trait Callback: Sized {
    fn call(&self, command: &Command<'_, Self>, shell: &Shell<Self>, context: &mut Context) -> Result<
        ReturnCode,
        CliError,
    >;
}

/// The mathematical form of a [`Config`], but for its callback.
pub struct ConfigView {
    pub name: Seq<char>,
    pub flags: Seq<FlagSpecView>,
    pub help: Seq<char>,
}

/// Everything needed to run a command: its name, the flags it accepts, its help text and its callback.
#[derive(Clone, Debug)]
pub struct Config<C> {
    name: String,
    flags: FlagSpecSet,
    help: String,
    callback: C,
}

impl<C> View for Config<C> {
    type V = ConfigView;

    closed spec fn view(&self) -> ConfigView {
        ConfigView { name: self.name@, flags: self.flags@, help: self.help@ }
    }
}

impl<C> Config<C> {
    pub closed spec fn spec_callback(&self) -> C {
        self.callback
    }

    pub open spec fn wf(&self) -> bool {
        unique_ids(self@.flags)
    }

    pub fn new(name: &str, flags: FlagSpecSet, help: &str, callback: C) -> (r: Config<C>)
        requires
            flags.wf(),
        ensures
            r@ == (ConfigView { name: name@, flags: flags@, help: help@ }),
            r.spec_callback() == callback,
            r.wf(),
    {
        Config { name: name.to_owned(), flags, help: help.to_owned(), callback }
    }

    pub fn name(&self) -> (r: &str)
        ensures
            r@ == self@.name,
    {
        self.name.as_str()
    }

    pub fn get_flags(&self) -> (r: &FlagSpecSet)
        ensures
            r@ == self@.flags,
    {
        &self.flags
    }

    pub fn callback(&self) -> (r: &C)
        ensures
            *r == self.spec_callback(),
    {
        &self.callback
    }

    pub fn help(&self) -> (r: &str)
        ensures
            r@ == self@.help,
    {
        self.help.as_str()
    }
}

} // verus!
