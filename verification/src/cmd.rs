//! The subcommands of one invocation.

use vstd::prelude::*;

use crate::list::List;
use crate::remove::Remove;

verus! {

/// One parsed subcommand.
pub enum Command {
    /// List matching entry names.
    List(List),
    /// Remove matching entries.
    Remove(Remove),
}

} // verus!
