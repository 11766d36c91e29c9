//! A small command-line shell framework: declarative command and flag
//! specifications, a verified line parser, a command registry and the
//! decisions of the read-eval loop.

pub mod command;
pub mod config;
pub mod context;
pub mod error;
pub mod flag;
pub mod operand;
pub mod parser;
pub mod shell;
pub mod text;
