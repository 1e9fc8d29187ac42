//! The style names of the interface's building blocks, and when the
//! interface sends the user to the login page.
use vstd::prelude::*;

verus! {

/// The look of a button.
#[derive(Clone, Copy, PartialEq, Eq, Structural, Debug)]
pub enum ButtonVariant {
    Outline,
    Primary,
    Secondary,
    Destructive,
    Plain,
}

impl Default for ButtonVariant {
    fn default() -> (r: Self)
        ensures
            r == ButtonVariant::Outline,
    {
        ButtonVariant::Outline
    }
}

impl ButtonVariant {
    /// The style name of the variant.
    pub fn class(&self) -> (r: &'static str)
        ensures
            r@ == match *self {
                ButtonVariant::Primary => "primary"@,
                ButtonVariant::Secondary => "secondary"@,
                ButtonVariant::Destructive => "destructive"@,
                ButtonVariant::Outline => "outline"@,
                ButtonVariant::Plain => "ghost"@,
            },
    {
        match self {
            ButtonVariant::Primary => "primary",
            ButtonVariant::Secondary => "secondary",
            ButtonVariant::Destructive => "destructive",
            ButtonVariant::Outline => "outline",
            ButtonVariant::Plain => "ghost",
        }
    }
}

/// Where the content of a row sits.
#[derive(Clone, Copy, PartialEq, Eq, Structural, Debug)]
pub enum RowPosition {
    Left,
    Middle,
    Right,
}

impl Default for RowPosition {
    fn default() -> (r: Self)
        ensures
            r == RowPosition::Left,
    {
        RowPosition::Left
    }
}

impl RowPosition {
    /// The style name of the position.
    pub fn as_str(&self) -> (r: &'static str)
        ensures
            r@ == match *self {
                RowPosition::Left => "left"@,
                RowPosition::Middle => "middle"@,
                RowPosition::Right => "right"@,
            },
    {
        match self {
            RowPosition::Left => "left",
            RowPosition::Middle => "middle",
            RowPosition::Right => "right",
        }
    }
}

/// Where the content of a column sits.
#[derive(Clone, Copy, PartialEq, Eq, Structural, Debug)]
pub enum ColumnPosition {
    Left,
    Middle,
    Right,
}

impl Default for ColumnPosition {
    fn default() -> (r: Self)
        ensures
            r == ColumnPosition::Left,
    {
        ColumnPosition::Left
    }
}

impl ColumnPosition {
    /// The style name of the position.
    pub fn as_str(&self) -> (r: &'static str)
        ensures
            r@ == match *self {
                ColumnPosition::Left => "left"@,
                ColumnPosition::Middle => "middle"@,
                ColumnPosition::Right => "right"@,
            },
    {
        match self {
            ColumnPosition::Left => "left",
            ColumnPosition::Middle => "middle",
            ColumnPosition::Right => "right",
        }
    }
}

/// Whether the user is sent to the login page: once the start-up check is
/// done, when there is no client and the login page is not already shown.
pub fn needs_login_redirect(auth_checked: bool, has_client: bool, at_login: bool) -> (r: bool)
    ensures
        r == (auth_checked && !has_client && !at_login),
{
    auth_checked && !has_client && !at_login
}

} // verus!
