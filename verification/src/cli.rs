//! The commands of the vault program and where each of them starts.

use vstd::prelude::*;
use crate::commands::{InitStage, AddStage, OpenStage, Request, Session};
use crate::keys::{rank_names, Rank};

verus! {

/// A parsed command line.
#[derive(Debug, PartialEq, Eq)]
pub struct Cli {
    /// The subcommand, if one was given.
    pub command: Option<Commands>,
}

/// The subcommands.
#[derive(Debug, PartialEq, Eq)]
pub enum Commands {
    /// Creates a new encrypted vault file.
    Init { file: String },
    /// Adds an entry to the vault. A password or a note that is not given is
    /// asked for.
    Add { file: String, key: String, login: String, password: Option<String>, notes: Option<String> },
    /// Lists the names of all entries.
    List { file: String },
    /// Shows one entry.
    Get { file: String, key: String },
    /// Removes one entry.
    Remove { file: String, key: String },
    /// Shows help for the program or for one subcommand.
    Help { command: Option<String> },
}

/// A subcommand that help can be shown for.
#[derive(Debug, Clone, Copy, PartialEq, Eq, Structural)]
pub enum Topic {
    Init,
    Add,
    List,
    Get,
    Remove,
    Help,
}

/// What help is to be shown.
#[derive(Debug, PartialEq, Eq)]
pub enum HelpTopic {
    /// The help of the whole program.
    Overview,
    /// The help of one subcommand.
    Subcommand(Topic),
    /// A complaint about an unknown subcommand, then the help of the whole
    /// program.
    Unknown(String),
}

/// The subcommand of a given name, if there is one.
pub open spec fn topic_named(name: Seq<char>) -> Option<Topic> {
    if name == "init"@ {
        Some(Topic::Init)
    } else if name == "add"@ {
        Some(Topic::Add)
    } else if name == "list"@ {
        Some(Topic::List)
    } else if name == "get"@ {
        Some(Topic::Get)
    } else if name == "remove"@ {
        Some(Topic::Remove)
    } else if name == "help"@ {
        Some(Topic::Help)
    } else {
        None
    }
}

/// The help that a request for help asks for.
pub open spec fn help_for(command: Option<String>) -> HelpTopic {
    match command {
        None => HelpTopic::Overview,
        Some(name) => match topic_named(name@) {
            Some(topic) => HelpTopic::Subcommand(topic),
            None => HelpTopic::Unknown(name),
        },
    }
}

/// Where a command line starts: the state of its session and the first
/// thing that the shell is asked to do.
pub open spec fn started(cli: Cli) -> (Session, Request) {
    match cli.command {
        None => (Session::Done, Request::ShowHelp { topic: HelpTopic::Overview }),
        Some(Commands::Help { command }) => (
            Session::Done,
            Request::ShowHelp { topic: help_for(command) },
        ),
        Some(Commands::Init { file }) => (
            Session::Init(InitStage::Probe { file }),
            Request::FileExists { file },
        ),
        Some(Commands::Add { file, key, login, password, notes }) => (
            Session::Add(
                AddStage::Opening { stage: OpenStage::Probe { file }, key, login, password, notes },
            ),
            Request::FileExists { file },
        ),
        Some(Commands::List { file }) => (
            Session::List(OpenStage::Probe { file }),
            Request::FileExists { file },
        ),
        Some(Commands::Get { file, key }) => (
            Session::Get { stage: OpenStage::Probe { file }, key },
            Request::FileExists { file },
        ),
        Some(Commands::Remove { file, key }) => (
            Session::Remove { stage: OpenStage::Probe { file }, key },
            Request::FileExists { file },
        ),
    }
}

/// Decides which help a request for help is to show.
pub fn show_help(command: Option<String>) -> (topic: HelpTopic)
    ensures
        topic == help_for(command),
{
    match command {
        None => HelpTopic::Overview,
        Some(name) => {
            if rank_names(name.as_str(), "init") == Rank::Same {
                HelpTopic::Subcommand(Topic::Init)
            } else if rank_names(name.as_str(), "add") == Rank::Same {
                HelpTopic::Subcommand(Topic::Add)
            } else if rank_names(name.as_str(), "list") == Rank::Same {
                HelpTopic::Subcommand(Topic::List)
            } else if rank_names(name.as_str(), "get") == Rank::Same {
                HelpTopic::Subcommand(Topic::Get)
            } else if rank_names(name.as_str(), "remove") == Rank::Same {
                HelpTopic::Subcommand(Topic::Remove)
            } else if rank_names(name.as_str(), "help") == Rank::Same {
                HelpTopic::Subcommand(Topic::Help)
            } else {
                HelpTopic::Unknown(name)
            }
        },
    }
}

/// Starts the session of a command line.
///
/// Every command that works on a vault starts by asking whether its file
/// exists; without a command, and for `help`, help is shown and nothing
/// else is done.
pub fn run(cli: Cli) -> (r: (Session, Request))
    ensures
        r == started(cli),
{
    match cli.command {
        None => (Session::Done, Request::ShowHelp { topic: HelpTopic::Overview }),
        Some(Commands::Help { command }) => (
            Session::Done,
            Request::ShowHelp { topic: show_help(command) },
        ),
        Some(Commands::Init { file }) => {
            let probe = file.clone();
            (Session::Init(InitStage::Probe { file }), Request::FileExists { file: probe })
        },
        Some(Commands::Add { file, key, login, password, notes }) => {
            let probe = file.clone();
            (
                Session::Add(
                    AddStage::Opening {
                        stage: OpenStage::Probe { file },
                        key,
                        login,
                        password,
                        notes,
                    },
                ),
                Request::FileExists { file: probe },
            )
        },
        Some(Commands::List { file }) => {
            let probe = file.clone();
            (Session::List(OpenStage::Probe { file }), Request::FileExists { file: probe })
        },
        Some(Commands::Get { file, key }) => {
            let probe = file.clone();
            (
                Session::Get { stage: OpenStage::Probe { file }, key },
                Request::FileExists { file: probe },
            )
        },
        Some(Commands::Remove { file, key }) => {
            let probe = file.clone();
            (
                Session::Remove { stage: OpenStage::Probe { file }, key },
                Request::FileExists { file: probe },
            )
        },
    }
}

} // verus!
