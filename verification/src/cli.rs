//! The arguments of the program.

use vstd::prelude::*;

verus! {

#[derive(Debug, Clone, Copy, PartialEq, Eq, Structural)]
pub struct Args {
    /// Do not connect to the daemon, and do not become it.
    pub standalone: bool,
    /// Do not launch an application where one of the same type runs. A standalone instance has
    /// none that runs, so it takes no notice of this.
    pub single: bool,
}

} // verus!
