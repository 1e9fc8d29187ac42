use anytask::action_bar::Position as BarPosition;
use anytask::actions::Position as HolderPosition;
use anytask::property_rows::{add_to_last_row, move_down, move_up, remove_at, swap_left, swap_right};
use anytask::styles::{needs_login_redirect, ButtonVariant, ColumnPosition, RowPosition};

#[test]
fn style_names() {
    assert_eq!(ButtonVariant::default(), ButtonVariant::Outline);
    assert_eq!(ButtonVariant::Primary.class(), "primary");
    assert_eq!(ButtonVariant::Secondary.class(), "secondary");
    assert_eq!(ButtonVariant::Destructive.class(), "destructive");
    assert_eq!(ButtonVariant::Outline.class(), "outline");
    assert_eq!(ButtonVariant::Plain.class(), "ghost");
    assert_eq!(RowPosition::default().as_str(), "left");
    assert_eq!(RowPosition::Middle.as_str(), "middle");
    assert_eq!(ColumnPosition::Right.as_str(), "right");
    assert_eq!(BarPosition::default().as_str(), "center");
    assert_eq!(BarPosition::Left.as_str(), "left");
    assert_eq!(HolderPosition::Center.left_pos(), "50%");
    assert_eq!(HolderPosition::Left.left_pos(), "0%");
    assert_eq!(HolderPosition::Center.transform_value(), "translateX(-50%)");
    assert_eq!(HolderPosition::Left.transform_value(), "translateX(0%)");
}

#[test]
fn login_redirect_only_when_checked_and_signed_out() {
    assert!(needs_login_redirect(true, false, false));
    assert!(!needs_login_redirect(false, false, false));
    assert!(!needs_login_redirect(true, true, false));
    assert!(!needs_login_redirect(true, false, true));
}

#[test]
fn rows_add_and_remove() {
    let mut rows: Vec<Vec<u32>> = vec![];
    add_to_last_row(&mut rows, 1);
    assert_eq!(rows, vec![vec![1]]);
    add_to_last_row(&mut rows, 2);
    assert_eq!(rows, vec![vec![1, 2]]);
    let mut row = vec![1, 2, 3];
    remove_at(&mut row, 1);
    assert_eq!(row, vec![1, 3]);
    remove_at(&mut row, 5);
    assert_eq!(row, vec![1, 3]);
}

#[test]
fn rows_swap() {
    let mut rows = vec![vec![1, 2, 3]];
    swap_left(&mut rows, 0, 2);
    assert_eq!(rows, vec![vec![1, 3, 2]]);
    swap_left(&mut rows, 0, 0);
    assert_eq!(rows, vec![vec![1, 3, 2]]);
    swap_right(&mut rows, 0, 0);
    assert_eq!(rows, vec![vec![3, 1, 2]]);
    swap_right(&mut rows, 0, 2);
    assert_eq!(rows, vec![vec![3, 1, 2]]);
}

#[test]
fn swap_left_then_right_restores() {
    let original = vec![vec![1, 2], vec![3, 4, 5]];
    let mut rows = original.clone();
    swap_left(&mut rows, 1, 2);
    swap_right(&mut rows, 1, 1);
    assert_eq!(rows, original);
}

#[test]
fn rows_move_up_and_down() {
    let mut rows = vec![vec![1, 2], vec![3, 4, 5]];
    move_up(&mut rows, 1, 2);
    assert_eq!(rows, vec![vec![1, 2, 5], vec![3, 4]]);
    move_up(&mut rows, 0, 0);
    assert_eq!(rows, vec![vec![2, 5], vec![3, 4], vec![1]]);
    move_down(&mut rows, 0, 1);
    assert_eq!(rows, vec![vec![2], vec![3, 5, 4], vec![1]]);
    move_down(&mut rows, 2, 0);
    assert_eq!(rows, vec![vec![2], vec![3, 5, 4], vec![], vec![1]]);
    let before = rows.clone();
    move_up(&mut rows, 9, 0);
    move_down(&mut rows, 0, 7);
    assert_eq!(rows, before);
}
