use vstd::prelude::*;

verus! {

/// A tile position on a map.
#[derive(Clone, Copy, PartialEq, Eq, Structural, Debug)]
pub struct Position {
    pub x: i32,
    pub y: i32,
}

} // verus!
