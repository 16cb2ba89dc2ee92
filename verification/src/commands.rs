//! The commands of the command-line tool.

use vstd::prelude::*;

verus! {

/// The command line: one command.
#[derive(Debug, Clone)]
pub struct Cli {
    pub command: Commands,
}

/// The commands.
#[derive(Debug, Clone)]
pub enum Commands {
    /// List the last known good build of each channel.
    ListChannels,
    /// List what is installed.
    ListInstalled,
    /// List all known good versions.
    List,
    /// Install a binary, given as `<name>@<version or channel>`.
    Install { value: String },
    /// Remove installations: one, given as `<name>@<version>`, or all of them.
    Purge { value: Option<String>, all: bool },
}

/// What a `purge` command removes.
#[derive(Debug, Clone)]
pub enum PurgeTarget {
    /// Every installation.
    All,
    /// The installation named by the entry.
    Entry(String),
    /// Nothing was named: the command is refused.
    Unspecified,
}

/// What a `purge` command with these arguments removes: everything when
/// `all` is set, else the named entry, if one is given.
pub fn purge_target(all: bool, value: Option<String>) -> (res: PurgeTarget)
    ensures
        all ==> res is All,
        !all ==> match value {
            Some(v) => res matches PurgeTarget::Entry(e) && e@ == v@,
            None => res is Unspecified,
        },
{
    if all {
        PurgeTarget::All
    } else {
        match value {
            Some(v) => PurgeTarget::Entry(v),
            None => PurgeTarget::Unspecified,
        }
    }
}

} // verus!
