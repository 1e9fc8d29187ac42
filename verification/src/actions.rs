//! The placement of the fixed holder of actions at the bottom of the screen.
use vstd::prelude::*;

verus! {

/// Where the action holder sits.
#[derive(Clone, Copy, PartialEq, Eq, Structural, Debug)]
pub enum Position {
    Center,
    Left,
}

impl Default for Position {
    fn default() -> (r: Self)
        ensures
            r == Position::Center,
    {
        Position::Center
    }
}

impl Position {
    /// The CSS `left` offset of the holder.
    pub fn left_pos(&self) -> (r: &'static str)
        ensures
            r@ == match *self {
                Position::Center => "50%"@,
                Position::Left => "0%"@,
            },
    {
        match self {
            Position::Center => "50%",
            Position::Left => "0%",
        }
    }

    /// The CSS transform of the holder.
    pub fn transform_value(&self) -> (r: &'static str)
        ensures
            r@ == match *self {
                Position::Center => "translateX(-50%)"@,
                Position::Left => "translateX(0%)"@,
            },
    {
        match self {
            Position::Center => "translateX(-50%)",
            Position::Left => "translateX(0%)",
        }
    }
}

} // verus!
