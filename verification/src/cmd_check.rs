//! The parsed form of the interface-JSON check subcommand: the path of the
//! file to validate. Argument parsing and the validation call live with the
//! command-line front end.

use vstd::prelude::*;

verus! {

/// The one argument of the interface-JSON check subcommand.
#[derive(Debug)]
pub struct CheckInterfaceJsonCommand {
    pub path: String,
}

} // verus!
