use vstd::prelude::*;
use std::ops::Range;

verus! {

/// What one cell of a shown table holds.
#[derive(Clone, Copy, Debug, PartialEq, Eq, Structural)]
pub enum Cell {
    /// The table's value at this row and column.
    Value,
    /// The row's number, then the table's value at this row and column.
    NumberedValue,
    /// The row's interval of random numbers, `start..end`.
    Interval(u8, u8),
    /// The last row's interval, shown as `start..0`.
    OpenInterval(u8),
}

/// The intervals given to a table, as values.
pub open spec fn intervals_view(end: Option<&Vec<Range<u8>>>) -> Option<Seq<Range<u8>>> {
    match end {
        Some(a) => Some(a@),
        None => None,
    }
}

/// What the cell at `row` and `col` of a table of `n_rows` rows shows. The first column
/// carries the row's number when `order` is set. The column whose index is that of the
/// last row shows the row's interval when intervals are given, open for the last row.
pub open spec fn cell_at(
    row: int,
    col: int,
    n_rows: int,
    order: bool,
    end: Option<Seq<Range<u8>>>,
) -> Cell {
    if col == 0 {
        if order {
            Cell::NumberedValue
        } else {
            Cell::Value
        }
    } else if col == n_rows - 1 {
        match end {
            Some(a) => if row == n_rows - 1 {
                Cell::OpenInterval(a[row].start)
            } else {
                Cell::Interval(a[row].start, a[row].end)
            },
            None => Cell::Value,
        }
    } else {
        Cell::Value
    }
}

/// The layout of a table of `n_rows` rows of `n_cols` values, cell by cell.
pub fn display_table(
    n_rows: usize,
    n_cols: usize,
    order: bool,
    end: Option<&Vec<Range<u8>>>,
) -> (plan: Vec<Vec<Cell>>)
    requires
        n_rows >= 2 && n_rows - 1 < n_cols && end is Some ==> end->0@.len() >= n_rows,
    ensures
        plan@.len() == n_rows,
        forall|r: int| 0 <= r < n_rows ==> #[trigger] plan@[r]@.len() == n_cols,
        forall|r: int, c: int|
            0 <= r < n_rows && 0 <= c < n_cols ==> #[trigger] plan@[r]@[c] == cell_at(
                r,
                c,
                n_rows as int,
                order,
                intervals_view(end),
            ),
        forall|r: int|
            0 <= r < n_rows && n_cols > 0 ==> #[trigger] plan@[r]@[0] == (if order {
                Cell::NumberedValue
            } else {
                Cell::Value
            }),
        forall|r: int, c: int|
            0 <= r < n_rows && 0 < c < n_cols && (end is None || c != n_rows - 1)
                ==> #[trigger] plan@[r]@[c] == Cell::Value,
        forall|r: int|
            0 <= r < n_rows - 1 && 0 < n_rows - 1 < n_cols && end is Some ==> #[trigger] plan@[r]@[n_rows
                - 1] == Cell::Interval(end->0@[r].start, end->0@[r].end),
        0 < n_rows - 1 < n_cols && end is Some ==> plan@[n_rows - 1]@[n_rows - 1]
            == Cell::OpenInterval(end->0@[n_rows - 1].start),
{
    let mut plan: Vec<Vec<Cell>> = Vec::new();
    let mut row: usize = 0;
    while row < n_rows
        invariant
            row <= n_rows,
            plan@.len() == row,
            n_rows >= 2 && n_rows - 1 < n_cols && end is Some ==> end->0@.len() >= n_rows,
            forall|r: int| 0 <= r < row ==> #[trigger] plan@[r]@.len() == n_cols,
            forall|r: int, c: int|
                0 <= r < row && 0 <= c < n_cols ==> #[trigger] plan@[r]@[c] == cell_at(
                    r,
                    c,
                    n_rows as int,
                    order,
                    intervals_view(end),
                ),
        decreases n_rows - row,
    {
        let mut cells: Vec<Cell> = Vec::new();
        let mut col: usize = 0;
        while col < n_cols
            invariant
                row < n_rows,
                col <= n_cols,
                cells@.len() == col,
                n_rows >= 2 && n_rows - 1 < n_cols && end is Some ==> end->0@.len() >= n_rows,
                forall|c: int|
                    0 <= c < col ==> #[trigger] cells@[c] == cell_at(
                        row as int,
                        c,
                        n_rows as int,
                        order,
                        intervals_view(end),
                    ),
            decreases n_cols - col,
        {
            let cell = if col == 0 {
                if order {
                    Cell::NumberedValue
                } else {
                    Cell::Value
                }
            } else if col == n_rows - 1 {
                match end {
                    Some(a) => {
                        if row == n_rows - 1 {
                            Cell::OpenInterval(a[row].start)
                        } else {
                            Cell::Interval(a[row].start, a[row].end)
                        }
                    },
                    None => Cell::Value,
                }
            } else {
                Cell::Value
            };
            cells.push(cell);
            col = col + 1;
        }
        plan.push(cells);
        row = row + 1;
    }
    proof {
        assert forall|r: int, c: int|
            0 <= r < n_rows && 0 < c < n_cols && (end is None || c != n_rows - 1)
                implies #[trigger] plan@[r]@[c] == Cell::Value by {
            lemma_cells(r, c, n_rows as int, order, intervals_view(end));
        }
    }
    plan
}

/// What each cell shows: only column 0 carries the row number (when `order` is set);
/// with intervals given, the column whose index is that of the last row shows row `r`'s
/// interval `start..end`, and the last row's interval open; every other cell shows the
/// value.
pub proof fn lemma_cells(row: int, col: int, n_rows: int, order: bool, end: Option<Seq<Range<u8>>>)
    requires
        0 <= row < n_rows,
        0 <= col,
    ensures
        col == 0 ==> cell_at(row, col, n_rows, order, end) == (if order {
            Cell::NumberedValue
        } else {
            Cell::Value
        }),
        col > 0 ==> cell_at(row, col, n_rows, order, end) != Cell::NumberedValue,
        col > 0 && (end is None || col != n_rows - 1) ==> cell_at(row, col, n_rows, order, end)
            == Cell::Value,
        col > 0 && col == n_rows - 1 && end is Some && row < n_rows - 1 ==> cell_at(
            row,
            col,
            n_rows,
            order,
            end,
        ) == Cell::Interval(end->0[row].start, end->0[row].end),
        col > 0 && col == n_rows - 1 && end is Some && row == n_rows - 1 ==> cell_at(
            row,
            col,
            n_rows,
            order,
            end,
        ) == Cell::OpenInterval(end->0[row].start),
{
}

} // verus!
