//! The arrangement of shown properties in rows: adding a property, and
//! moving one within its row or to the row above or below.
use vstd::prelude::*;

verus! {

/// The items of each row.
pub open spec fn rows_view<T>(rows: Seq<Vec<T>>) -> Seq<Seq<T>> {
    rows.map_values(|r: Vec<T>| r@)
}

/// The rows after `item` was added at the end of the last row (or in a new
/// row when there is none).
pub open spec fn added_to_last_row<T>(rows: Seq<Seq<T>>, item: T) -> Seq<Seq<T>> {
    if rows.len() == 0 {
        seq![seq![item]]
    } else {
        rows.update(rows.len() - 1, rows.last().push(item))
    }
}

/// A row with the items at `a` and `b` exchanged.
pub open spec fn swapped<T>(s: Seq<T>, a: int, b: int) -> Seq<T> {
    s.update(a, s[b]).update(b, s[a])
}

/// `item` put at place `j` of `row`, or at its end when the row is shorter.
pub open spec fn put_at<T>(row: Seq<T>, j: int, item: T) -> Seq<T> {
    if j <= row.len() {
        row.insert(j, item)
    } else {
        row.push(item)
    }
}

/// The rows after the item at place `j` of row `i` went to the row above
/// (at the same place, or last when that row is shorter); from the first row
/// it goes to a new last row. Nothing happens when there is no such item.
pub open spec fn moved_up<T>(rows: Seq<Seq<T>>, i: int, j: int) -> Seq<Seq<T>> {
    if 0 <= i < rows.len() && 0 <= j < rows[i].len() {
        let item = rows[i][j];
        let r1 = rows.update(i, rows[i].remove(j));
        if 0 < i {
            r1.update(i - 1, put_at(r1[i - 1], j, item))
        } else {
            r1.push(seq![item])
        }
    } else {
        rows
    }
}

/// The rows after the item at place `j` of row `i` went to the row below
/// (at the same place, or last when that row is shorter); from the last row
/// it goes to a new last row. Nothing happens when there is no such item.
pub open spec fn moved_down<T>(rows: Seq<Seq<T>>, i: int, j: int) -> Seq<Seq<T>> {
    if 0 <= i < rows.len() && 0 <= j < rows[i].len() {
        let item = rows[i][j];
        let r1 = rows.update(i, rows[i].remove(j));
        if i + 1 < r1.len() {
            r1.update(i + 1, put_at(r1[i + 1], j, item))
        } else {
            r1.push(seq![item])
        }
    } else {
        rows
    }
}

/// The rows after the item at place `j` of row `i` changed places with the
/// one before it (nothing happens for the first place).
pub open spec fn swapped_left<T>(rows: Seq<Seq<T>>, i: int, j: int) -> Seq<Seq<T>> {
    if 0 < j {
        rows.update(i, swapped(rows[i], j - 1, j))
    } else {
        rows
    }
}

/// The rows after the item at place `j` of row `i` changed places with the
/// one after it (nothing happens for the last place).
pub open spec fn swapped_right<T>(rows: Seq<Seq<T>>, i: int, j: int) -> Seq<Seq<T>> {
    if j + 1 < rows[i].len() {
        rows.update(i, swapped(rows[i], j, j + 1))
    } else {
        rows
    }
}

/// Adds `item` at the end of the last row, or in a new row when there is
/// none.
pub fn add_to_last_row<T>(rows: &mut Vec<Vec<T>>, item: T)
    ensures
        rows_view(final(rows)@) == added_to_last_row(rows_view(old(rows)@), item),
{
    let n = rows.len();
    if n > 0 {
        let mut last = rows.remove(n - 1);
        last.push(item);
        rows.push(last);
    } else {
        let mut row: Vec<T> = Vec::new();
        row.push(item);
        rows.push(row);
    }
    assert(rows_view(rows@) =~= added_to_last_row(rows_view(old(rows)@), item));
}

/// Removes entry `j` of `rows` when there is one.
pub fn remove_at<T>(rows: &mut Vec<T>, j: usize)
    ensures
        final(rows)@ == if j < old(rows)@.len() {
            old(rows)@.remove(j as int)
        } else {
            old(rows)@
        },
{
    if j < rows.len() {
        rows.remove(j);
    }
}

/// Exchanges items `a < b` of a row.
fn swap_in_row<T>(row: &mut Vec<T>, a: usize, b: usize)
    requires
        a < b < old(row)@.len(),
    ensures
        final(row)@ == swapped(old(row)@, a as int, b as int),
{
    let y = row.remove(b);
    let x = row.remove(a);
    row.insert(a, y);
    row.insert(b, x);
    assert(row@ =~= swapped(old(row)@, a as int, b as int));
}

/// Moves the item at place `j` of row `i` one place to the left (nothing
/// happens for the first place).
pub fn swap_left<T>(rows: &mut Vec<Vec<T>>, i: usize, j: usize)
    requires
        0 < j ==> i < old(rows)@.len() && j < old(rows)@[i as int]@.len(),
    ensures
        rows_view(final(rows)@) == swapped_left(rows_view(old(rows)@), i as int, j as int),
{
    if 0 < j {
        let mut row = rows.remove(i);
        swap_in_row(&mut row, j - 1, j);
        rows.insert(i, row);
        assert(rows_view(rows@) =~= rows_view(old(rows)@).update(
            i as int,
            swapped(rows_view(old(rows)@)[i as int], j - 1, j as int),
        ));
    }
}

/// Moves the item at place `j` of row `i` one place to the right (nothing
/// happens for the last place).
pub fn swap_right<T>(rows: &mut Vec<Vec<T>>, i: usize, j: usize)
    requires
        i < old(rows)@.len(),
        j < usize::MAX,
    ensures
        rows_view(final(rows)@) == swapped_right(rows_view(old(rows)@), i as int, j as int),
{
    if j + 1 < rows[i].len() {
        let mut row = rows.remove(i);
        swap_in_row(&mut row, j, j + 1);
        rows.insert(i, row);
        assert(rows_view(rows@) =~= rows_view(old(rows)@).update(
            i as int,
            swapped(rows_view(old(rows)@)[i as int], j as int, j + 1),
        ));
    }
}

/// Takes the item at place `j` of row `i` out, if there is one.
fn take_item<T>(rows: &mut Vec<Vec<T>>, i: usize, j: usize) -> (r: Option<T>)
    ensures
        (0 <= i < old(rows)@.len() && 0 <= j < old(rows)@[i as int]@.len()) ==> r == Some(
            old(rows)@[i as int]@[j as int],
        ) && rows_view(final(rows)@) == rows_view(old(rows)@).update(
            i as int,
            rows_view(old(rows)@)[i as int].remove(j as int),
        ),
        !(0 <= i < old(rows)@.len() && 0 <= j < old(rows)@[i as int]@.len()) ==> r is None
            && final(rows)@ == old(rows)@,
{
    if i < rows.len() && j < rows[i].len() {
        let mut row = rows.remove(i);
        let item = row.remove(j);
        rows.insert(i, row);
        assert(rows_view(rows@) =~= rows_view(old(rows)@).update(
            i as int,
            rows_view(old(rows)@)[i as int].remove(j as int),
        ));
        Some(item)
    } else {
        None
    }
}

/// Puts `item` at place `j` of row `k`, or at its end when it is shorter.
fn put_in_row<T>(rows: &mut Vec<Vec<T>>, k: usize, j: usize, item: T)
    requires
        k < old(rows)@.len(),
    ensures
        rows_view(final(rows)@) == rows_view(old(rows)@).update(
            k as int,
            put_at(rows_view(old(rows)@)[k as int], j as int, item),
        ),
{
    let mut row = rows.remove(k);
    if j <= row.len() {
        row.insert(j, item);
    } else {
        row.push(item);
    }
    rows.insert(k, row);
    assert(rows_view(rows@) =~= rows_view(old(rows)@).update(
        k as int,
        put_at(rows_view(old(rows)@)[k as int], j as int, item),
    ));
}

/// Moves the item at place `j` of row `i` to the row above.
pub fn move_up<T>(rows: &mut Vec<Vec<T>>, i: usize, j: usize)
    ensures
        rows_view(final(rows)@) == moved_up(rows_view(old(rows)@), i as int, j as int),
{
    match take_item(rows, i, j) {
        Some(item) => {
            assert(rows_view(rows@).len() == rows@.len());
            assert(i < rows.len());
            if 0 < i {
                put_in_row(rows, i - 1, j, item);
            } else {
                let mut row: Vec<T> = Vec::new();
                row.push(item);
                rows.push(row);
                assert(rows_view(rows@) =~= moved_up(rows_view(old(rows)@), i as int, j as int));
            }
        },
        None => {},
    }
}

/// Moves the item at place `j` of row `i` to the row below.
pub fn move_down<T>(rows: &mut Vec<Vec<T>>, i: usize, j: usize)
    ensures
        rows_view(final(rows)@) == moved_down(rows_view(old(rows)@), i as int, j as int),
{
    match take_item(rows, i, j) {
        Some(item) => {
            assert(rows_view(rows@).len() == rows@.len());
            assert(i < rows.len());
            if i + 1 < rows.len() {
                put_in_row(rows, i + 1, j, item);
            } else {
                let mut row: Vec<T> = Vec::new();
                row.push(item);
                rows.push(row);
                assert(rows_view(rows@) =~= moved_down(rows_view(old(rows)@), i as int, j as int));
            }
        },
        None => {},
    }
}

/// Law: swapping an item left and then right gives the rows back.
pub proof fn law_swap_left_then_right<T>(rows: Seq<Seq<T>>, i: int, j: int)
    requires
        0 <= i < rows.len(),
        0 < j < rows[i].len(),
    ensures
        swapped_right(swapped_left(rows, i, j), i, j - 1) == rows,
{
    let r1 = swapped_left(rows, i, j);
    assert(swapped(r1[i], j - 1, j) =~= rows[i]);
    assert(r1.update(i, swapped(r1[i], j - 1, j)) =~= rows);
}

/// Law: moving an item left exchanges it with the item before it, in its
/// row only; the first item does not move.
pub proof fn law_swap_left_moves_item<T>(rows: Seq<Seq<T>>, i: int, j: int)
    requires
        0 <= i < rows.len(),
        0 <= j < rows[i].len(),
    ensures
        ({
            let r = swapped_left(rows, i, j);
            &&& r.len() == rows.len()
            &&& forall|k: int| 0 <= k < rows.len() && k != i ==> #[trigger] r[k] == rows[k]
            &&& r[i].len() == rows[i].len()
            &&& j == 0 ==> r[i] == rows[i]
            &&& 0 < j ==> r[i][j - 1] == rows[i][j] && r[i][j] == rows[i][j - 1]
            &&& forall|k: int|
                0 <= k < rows[i].len() && k != j && k != j - 1 ==> #[trigger] r[i][k] == rows[i][k]
        }),
{
}

/// Law: moving an item right exchanges it with the item after it, in its
/// row only; the last item does not move.
pub proof fn law_swap_right_moves_item<T>(rows: Seq<Seq<T>>, i: int, j: int)
    requires
        0 <= i < rows.len(),
        0 <= j < rows[i].len(),
    ensures
        ({
            let r = swapped_right(rows, i, j);
            &&& r.len() == rows.len()
            &&& forall|k: int| 0 <= k < rows.len() && k != i ==> #[trigger] r[k] == rows[k]
            &&& r[i].len() == rows[i].len()
            &&& j + 1 == rows[i].len() ==> r[i] == rows[i]
            &&& j + 1 < rows[i].len() ==> r[i][j + 1] == rows[i][j] && r[i][j] == rows[i][j + 1]
            &&& forall|k: int|
                0 <= k < rows[i].len() && k != j && k != j + 1 ==> #[trigger] r[i][k] == rows[i][k]
        }),
{
}

/// Law: adding to rows that have some keeps every row but the last, and
/// appends the item to the last row; with no rows, the item forms the only
/// row.
pub proof fn law_add_goes_to_last_row<T>(rows: Seq<Seq<T>>, item: T)
    ensures
        rows.len() == 0 ==> added_to_last_row(rows, item) == seq![seq![item]],
        rows.len() > 0 ==> {
            let r = added_to_last_row(rows, item);
            &&& r.len() == rows.len()
            &&& forall|k: int| 0 <= k < rows.len() - 1 ==> #[trigger] r[k] == rows[k]
            &&& r[rows.len() - 1].len() == rows[rows.len() - 1].len() + 1
            &&& r[rows.len() - 1][rows[rows.len() - 1].len() as int] == item
            &&& forall|k: int|
                0 <= k < rows[rows.len() - 1].len() ==> #[trigger] r[rows.len() - 1][k]
                    == rows[rows.len() - 1][k]
        },
{
}

/// `r` is `row` with `item` put in at place `at`: the items before `at`
/// stay, the item is at `at`, and the others follow one place later.
pub open spec fn inserted_at<T>(r: Seq<T>, row: Seq<T>, at: int, item: T) -> bool {
    &&& r.len() == row.len() + 1
    &&& r[at] == item
    &&& forall|k: int| 0 <= k < at ==> #[trigger] r[k] == row[k]
    &&& forall|k: int| at <= k < row.len() ==> #[trigger] r[k + 1] == row[k]
}

/// Law: moving item `j` of row `i` up takes it out of row `i` and puts it in
/// the row above at the same place, or last when that row is shorter; from
/// the first row it forms a new last row. Other rows stay.
pub proof fn law_move_up_places_item<T>(rows: Seq<Seq<T>>, i: int, j: int)
    requires
        0 <= i < rows.len(),
        0 <= j < rows[i].len(),
    ensures
        ({
            let r = moved_up(rows, i, j);
            let item = rows[i][j];
            &&& r[i].len() == rows[i].len() - 1
            &&& forall|k: int| 0 <= k < j ==> #[trigger] r[i][k] == rows[i][k]
            &&& forall|k: int| j <= k < rows[i].len() - 1 ==> #[trigger] r[i][k] == rows[i][k + 1]
            &&& i > 0 ==> {
                let above = rows[i - 1];
                let at = if j <= above.len() { j } else { above.len() as int };
                &&& r.len() == rows.len()
                &&& inserted_at(r[i - 1], above, at, item)
                &&& forall|k: int|
                    0 <= k < rows.len() && k != i && k != i - 1 ==> #[trigger] r[k] == rows[k]
            }
            &&& i == 0 ==> {
                &&& r.len() == rows.len() + 1
                &&& r[rows.len() as int] == seq![item]
                &&& forall|k: int| 1 <= k < rows.len() ==> #[trigger] r[k] == rows[k]
            }
        }),
{
}

/// Law: moving item `j` of row `i` down takes it out of row `i` and puts it
/// in the row below at the same place, or last when that row is shorter;
/// from the last row it forms a new last row. Other rows stay.
pub proof fn law_move_down_places_item<T>(rows: Seq<Seq<T>>, i: int, j: int)
    requires
        0 <= i < rows.len(),
        0 <= j < rows[i].len(),
    ensures
        ({
            let r = moved_down(rows, i, j);
            let item = rows[i][j];
            &&& r[i].len() == rows[i].len() - 1
            &&& forall|k: int| 0 <= k < j ==> #[trigger] r[i][k] == rows[i][k]
            &&& forall|k: int| j <= k < rows[i].len() - 1 ==> #[trigger] r[i][k] == rows[i][k + 1]
            &&& i + 1 < rows.len() ==> {
                let below = rows[i + 1];
                let at = if j <= below.len() { j } else { below.len() as int };
                &&& r.len() == rows.len()
                &&& inserted_at(r[i + 1], below, at, item)
                &&& forall|k: int|
                    0 <= k < rows.len() && k != i && k != i + 1 ==> #[trigger] r[k] == rows[k]
            }
            &&& i + 1 == rows.len() ==> {
                &&& r.len() == rows.len() + 1
                &&& r[rows.len() as int] == seq![item]
                &&& forall|k: int| 0 <= k < i ==> #[trigger] r[k] == rows[k]
            }
        }),
{
}

/// Law: a swap exchanges the two items and keeps the others.
pub proof fn law_swapped_exchanges<T>(s: Seq<T>, a: int, b: int)
    requires
        0 <= a < b < s.len(),
    ensures
        swapped(s, a, b).len() == s.len(),
        swapped(s, a, b)[a] == s[b],
        swapped(s, a, b)[b] == s[a],
        forall|k: int| 0 <= k < s.len() && k != a && k != b ==> #[trigger] swapped(s, a, b)[k] == s[k],
{
}

} // verus!
