//! The command line the tool accepts, as plain values: the front end reads
//! the arguments into these.

use vstd::prelude::*;

verus! {

/// The whole command line.
#[derive(Debug)]
pub struct Cli {
    /// How verbose to be: how often `-v` was given.
    pub verbose: u8,
    /// The subcommand; without one a one-screen summary is printed.
    pub command: Option<Command>,
}

/// A subcommand.
#[derive(Debug)]
pub enum Command {
    /// Log in and store the credentials, or with `clear` remove them.
    Auth { username: Option<String>, clear: bool },
    /// Fetch the collection; `full` ignores the last sync time.
    Sync { full: bool },
    /// Print the collection as a table.
    List {
        filter: String,
        sort: String,
        cols: Option<String>,
        limit: Option<usize>,
        json: bool,
    },
    /// Summarize the collection, or one area of it.
    Stats { json: bool, section: Option<StatsCommand> },
}

/// A deep dive of `stats`.
#[derive(Debug)]
pub enum StatsCommand {
    Plays { json: bool },
    Ratings { json: bool },
    Year { json: bool },
    Time { json: bool },
    Players { json: bool },
}

/// Whether a stats run prints JSON: asked for on `stats` or on the section.
pub open spec fn stats_json_of(json: bool, section: Option<StatsCommand>) -> bool {
    json || match section {
        Some(StatsCommand::Plays { json: j }) => j,
        Some(StatsCommand::Ratings { json: j }) => j,
        Some(StatsCommand::Year { json: j }) => j,
        Some(StatsCommand::Time { json: j }) => j,
        Some(StatsCommand::Players { json: j }) => j,
        None => false,
    }
}

/// Whether a stats run prints JSON.
pub fn stats_json(json: bool, section: &Option<StatsCommand>) -> (r: bool)
    ensures
        r == stats_json_of(json, *section),
{
    json || match section {
        Some(StatsCommand::Plays { json: j }) => *j,
        Some(StatsCommand::Ratings { json: j }) => *j,
        Some(StatsCommand::Year { json: j }) => *j,
        Some(StatsCommand::Time { json: j }) => *j,
        Some(StatsCommand::Players { json: j }) => *j,
        None => false,
    }
}

} // verus!
