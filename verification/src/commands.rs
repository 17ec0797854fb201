use vstd::prelude::*;

use crate::config::app::Ipv4;

verus! {

/// The bundle subcommands: write a fresh bundle configuration, or build
/// the archive the configuration describes.
#[derive(Debug)]
pub enum BundleCmd {
    Init,
    Create,
}

/// The I/O step a bundle subcommand stands for: write a fresh bundle
/// configuration, or build the archive the one on disk describes.
#[derive(Clone, Copy, PartialEq, Eq, Structural, Debug)]
pub enum BundleAction {
    WriteConfig,
    CreateArchive,
}

/// Decides which step the shell must perform for a bundle subcommand.
pub fn handle_bundle(command: &BundleCmd) -> (r: BundleAction)
    ensures
        (command matches BundleCmd::Init) <==> (r matches BundleAction::WriteConfig),
        (command matches BundleCmd::Create) <==> (r matches BundleAction::CreateArchive),
{
    match command {
        BundleCmd::Init => BundleAction::WriteConfig,
        BundleCmd::Create => BundleAction::CreateArchive,
    }
}

/// The connection-table subcommands.
#[derive(Debug)]
pub enum ConfigCmd {
    Add { name: String, addr: Ipv4 },
    Remove { name: String },
    List,
    Open,
}

/// The debugging subcommands: attach to a remote target, or symbolicate
/// crash addresses of a local binary.
#[derive(Debug)]
pub enum DebugCmd {
    Attach { address: String },
    Addr2line { filepath: String, addresses: Vec<String> },
}

} // verus!
