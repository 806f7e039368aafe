use vstd::prelude::*;

verus! {

/// A rectangular box on the screen that may stand for a mine and carry a
/// number.
pub struct Block {
    width: u32,
    height: u32,
    value: i32,
    is_bomb: bool,
}

impl Block {
    /// Whether the block stands for a mine.
    pub closed spec fn spec_is_bomb(&self) -> bool {
        self.is_bomb
    }

    /// The number the block carries.
    pub closed spec fn spec_value(&self) -> int {
        self.value as int
    }

    pub fn is_bomb(&self) -> (r: bool)
        ensures
            r == self.spec_is_bomb(),
    {
        self.is_bomb
    }

    pub fn get_value(&self) -> (r: i32)
        ensures
            r as int == self.spec_value(),
    {
        self.value
    }
}

} // verus!
