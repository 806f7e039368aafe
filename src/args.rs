use vstd::prelude::*;

verus! {

/// The options the game is started with.
#[derive(Clone, Copy, Debug, PartialEq, Eq, Structural)]
pub struct Args {
    /// Show the mines on the board.
    pub debug: bool,
}

} // verus!
