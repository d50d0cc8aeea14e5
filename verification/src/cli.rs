//! The command-line surface as plain data: a front end parses the arguments
//! into these types and dispatches on them.

use vstd::prelude::*;

verus! {

/// Configuration management actions.
#[derive(Debug)]
pub enum Config {
    Init,
    Show,
}

/// What the user asked for. Multi-token patterns are joined with spaces
/// before they reach the catalog queries.
#[derive(Debug)]
pub enum Command {
    List { patterns: Vec<String> },
    Play { patterns: Vec<String> },
    Install { path: String },
    Completion(crate::Shell),
    Config(Config),
}

/// The parsed command line.
#[derive(Debug)]
pub struct CLI {
    pub cmd: Command,
}

} // verus!
