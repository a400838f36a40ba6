//! What the program is asked to do on its command line.

use crate::lists::holds_text;
use crate::text::views;
use vstd::prelude::*;

verus! {

#[derive(Clone, Copy, PartialEq, Eq, Structural, Debug)]
pub enum Action {
    Help,
    Version,
    /// Print what is playing, as one line or as JSON.
    Status { json: bool },
    Run,
}

/// Help goes before the version, and both go before the status.
pub open spec fn action_of(args: Seq<Seq<char>>) -> Action {
    if args.contains("--help"@) || args.contains("-h"@) {
        Action::Help
    } else if args.contains("--version"@) || args.contains("-V"@) {
        Action::Version
    } else if args.contains("--status-json"@) {
        Action::Status { json: true }
    } else if args.contains("--status"@) {
        Action::Status { json: false }
    } else {
        Action::Run
    }
}

/// What the arguments ask for.
pub fn action(args: &Vec<String>) -> (r: Action)
    ensures
        r == action_of(views(args@)),
{
    if holds_text(args, "--help") || holds_text(args, "-h") {
        Action::Help
    } else if holds_text(args, "--version") || holds_text(args, "-V") {
        Action::Version
    } else if holds_text(args, "--status-json") {
        Action::Status { json: true }
    } else if holds_text(args, "--status") {
        Action::Status { json: false }
    } else {
        Action::Run
    }
}

} // verus!
