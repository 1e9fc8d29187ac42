//! The placement of the bar of navigation actions.
use vstd::prelude::*;

verus! {

/// Where the action bar sits.
#[derive(Clone, Copy, PartialEq, Eq, Structural, Debug)]
pub enum Position {
    Center,
    Left,
}

impl Default for Position {
    fn default() -> (r: Self)
        ensures
            r == Position::Center,
    {
        Position::Center
    }
}

impl Position {
    /// The style name of the placement.
    pub fn as_str(&self) -> (r: &'static str)
        ensures
            r@ == match *self {
                Position::Center => "center"@,
                Position::Left => "left"@,
            },
    {
        match self {
            Position::Center => "center",
            Position::Left => "left",
        }
    }
}

} // verus!
