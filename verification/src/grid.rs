use vstd::prelude::*;

verus! {

/// `old` cut or padded to `len` entries; padding entries are `fill`.
pub open spec fn resized_row<A>(old: Seq<A>, len: nat, fill: A) -> Seq<A> {
    Seq::new(len, |c: int| if c < old.len() { old[c] } else { fill })
}

/// `old` cut or padded to `rows` rows of `cols` entries each. Entries inside both the
/// old and the new shape keep their value; every other entry is `fill`.
pub open spec fn resized_grid<A>(old: Seq<Seq<A>>, rows: nat, cols: nat, fill: A) -> Seq<
    Seq<A>,
> {
    Seq::new(
        rows,
        |r: int| resized_row(if r < old.len() { old[r] } else { Seq::empty() }, cols, fill),
    )
}

/// The values of a table, row by row.
pub open spec fn grid_view<T>(g: Seq<Vec<T>>) -> Seq<Seq<T>> {
    g.map_values(|row: Vec<T>| row@)
}

/// The texts of a row of strings.
pub open spec fn texts(row: Seq<String>) -> Seq<Seq<char>> {
    row.map_values(|s: String| s@)
}

/// The contents of a row whose cells are lists.
pub open spec fn lists<T>(row: Seq<Vec<T>>) -> Seq<Seq<T>> {
    row.map_values(|c: Vec<T>| c@)
}

/// The texts of a table of strings, row by row.
pub open spec fn text_grid_view(g: Seq<Vec<String>>) -> Seq<Seq<Seq<char>>> {
    g.map_values(|row: Vec<String>| texts(row@))
}

/// The contents of a table whose cells are lists, row by row.
pub open spec fn list_grid_view<T>(g: Seq<Vec<Vec<T>>>) -> Seq<Seq<Seq<T>>> {
    g.map_values(|row: Vec<Vec<T>>| lists(row@))
}

fn resize_row<T: Copy>(row: &mut Vec<T>, len: usize, fill: T)
    ensures
        final(row)@ == resized_row(old(row)@, len as nat, fill),
{
    let ghost start = row@;
    if len <= row.len() {
        row.truncate(len);
    } else {
        while row.len() < len
            invariant
                start.len() <= row@.len() <= len,
                forall|c: int|
                    0 <= c < row@.len() ==> row@[c] == (if c < start.len() {
                        start[c]
                    } else {
                        fill
                    }),
            decreases len - row@.len(),
        {
            row.push(fill);
        }
    }
    assert(row@ =~= resized_row(start, len as nat, fill));
}

/// Gives `input` exactly `x` rows of `y` cells. Cells that lie inside both the old and the
/// new shape keep their value; the others are `fill`.
pub fn size_mat<T: Copy>(input: &mut Vec<Vec<T>>, x: usize, y: usize, fill: T)
    ensures
        grid_view(final(input)@) == resized_grid(grid_view(old(input)@), x as nat, y as nat, fill),
        final(input)@.len() == x,
        forall|r: int| 0 <= r < x ==> (#[trigger] final(input)@[r])@.len() == y,
        forall|r: int, c: int|
            0 <= r < x && 0 <= c < y ==> #[trigger] final(input)@[r]@[c] == (if r < old(
                input,
            )@.len() && c < old(input)@[r]@.len() {
                old(input)@[r]@[c]
            } else {
                fill
            }),
{
    let ghost start = grid_view(input@);
    if x <= input.len() {
        input.truncate(x);
    } else {
        while input.len() < x
            invariant
                start.len() <= input@.len() <= x,
                forall|r: int|
                    0 <= r < input@.len() ==> #[trigger] input@[r]@ == (if r < start.len() {
                        start[r]
                    } else {
                        Seq::empty()
                    }),
            decreases x - input@.len(),
        {
            input.push(Vec::new());
        }
    }
    let mut row: usize = 0;
    while row < x
        invariant
            input@.len() == x,
            row <= x,
            forall|r: int|
                0 <= r < x ==> #[trigger] input@[r]@ == (if r < row {
                    resized_row(if r < start.len() { start[r] } else { Seq::empty() }, y as nat, fill)
                } else if r < start.len() {
                    start[r]
                } else {
                    Seq::empty()
                }),
        decreases x - row,
    {
        resize_row(&mut input[row], y, fill);
        row = row + 1;
    }
    assert(grid_view(input@) =~= resized_grid(start, x as nat, y as nat, fill));
    proof {
        lemma_resized_grid_cells(start, x as nat, y as nat, fill);
        assert forall|r: int| 0 <= r < x implies #[trigger] input@[r]@ == grid_view(input@)[r] by {}
        assert forall|r: int| 0 <= r < start.len() implies #[trigger] old(input)@[r]@ == start[r] by {}
    }
}


fn resize_text_row(row: &mut Vec<String>, len: usize)
    ensures
        texts(final(row)@) == resized_row(
            texts(old(row)@),
            len as nat,
            "0"@,
        ),
{
    let ghost start = texts(row@);
    if len <= row.len() {
        row.truncate(len);
    } else {
        while row.len() < len
            invariant
                start.len() <= row@.len() <= len,
                forall|c: int|
                    0 <= c < row@.len() ==> #[trigger] row@[c]@ == (if c < start.len() {
                        start[c]
                    } else {
                        "0"@
                    }),
            decreases len - row@.len(),
        {
            row.push(String::from_str("0"));
        }
    }
    assert(texts(row@) =~= resized_row(start, len as nat, "0"@));
}

/// Gives the table of input texts exactly `count` rows of two cells. Cells that lie
/// inside both the old and the new shape keep their text; the others hold "0".
pub fn input_table(count: usize, list: &mut Vec<Vec<String>>)
    ensures
        text_grid_view(final(list)@) == resized_grid(
            text_grid_view(old(list)@),
            count as nat,
            2,
            "0"@,
        ),
        final(list)@.len() == count,
        forall|r: int| 0 <= r < count ==> (#[trigger] final(list)@[r])@.len() == 2,
        forall|r: int, c: int|
            0 <= r < count && 0 <= c < 2 ==> #[trigger] final(list)@[r]@[c]@ == (if r < old(
                list,
            )@.len() && c < old(list)@[r]@.len() {
                old(list)@[r]@[c]@
            } else {
                "0"@
            }),
{
    let ghost start = text_grid_view(list@);
    if count <= list.len() {
        list.truncate(count);
    } else {
        while list.len() < count
            invariant
                start.len() <= list@.len() <= count,
                forall|r: int|
                    0 <= r < list@.len() ==> #[trigger] texts(list@[r]@)
                        == (if r < start.len() {
                        start[r]
                    } else {
                        Seq::empty()
                    }),
            decreases count - list@.len(),
        {
            list.push(Vec::new());
            proof {
                let last = list@.len() - 1;
                assert(texts(list@[last]@) =~= Seq::<Seq<char>>::empty());
            }
        }
    }
    let mut row: usize = 0;
    while row < count
        invariant
            list@.len() == count,
            row <= count,
            forall|r: int|
                0 <= r < count ==> #[trigger] texts(list@[r]@) == (if r < row {
                    resized_row(if r < start.len() { start[r] } else { Seq::empty() }, 2, "0"@)
                } else if r < start.len() {
                    start[r]
                } else {
                    Seq::empty()
                }),
        decreases count - row,
    {
        resize_text_row(&mut list[row], 2);
        row = row + 1;
    }
    assert(text_grid_view(list@) =~= resized_grid(start, count as nat, 2, "0"@));
    proof {
        lemma_resized_grid_cells(start, count as nat, 2, "0"@);
        assert forall|r: int| 0 <= r < count implies #[trigger] texts(list@[r]@) == text_grid_view(
            list@,
        )[r] by {}
        assert forall|r: int| 0 <= r < start.len() implies #[trigger] texts(old(list)@[r]@)
            == start[r] by {}
        assert forall|r: int| 0 <= r < count implies (#[trigger] list@[r])@.len() == 2 by {
            assert(texts(list@[r]@).len() == list@[r]@.len());
            assert(texts(list@[r]@) == text_grid_view(list@)[r]);
        }
        assert forall|r: int, c: int|
            0 <= r < count && 0 <= c < 2 implies #[trigger] list@[r]@[c]@ == (if r < old(
                list,
            )@.len() && c < old(list)@[r]@.len() {
                old(list)@[r]@[c]@
            } else {
                "0"@
            }) by {
            assert(texts(list@[r]@)[c] == list@[r]@[c]@);
            if r < old(list)@.len() && c < old(list)@[r]@.len() {
                assert(texts(old(list)@[r]@)[c] == old(list)@[r]@[c]@);
            }
        }
    }
}

fn resize_list_row<T>(row: &mut Vec<Vec<T>>, len: usize)
    ensures
        lists(final(row)@) == resized_row(
            lists(old(row)@),
            len as nat,
            Seq::empty(),
        ),
{
    let ghost start = lists(row@);
    if len <= row.len() {
        row.truncate(len);
    } else {
        while row.len() < len
            invariant
                start.len() <= row@.len() <= len,
                forall|c: int|
                    0 <= c < row@.len() ==> #[trigger] row@[c]@ == (if c < start.len() {
                        start[c]
                    } else {
                        Seq::empty()
                    }),
            decreases len - row@.len(),
        {
            row.push(Vec::new());
        }
    }
    assert(lists(row@) =~= resized_row(start, len as nat, Seq::empty()));
}

/// Gives a table whose cells are lists exactly `rows` rows of `cols` cells. Cells that
/// lie inside both the old and the new shape keep their list; the others are empty.
pub fn size_table<T>(table: &mut Vec<Vec<Vec<T>>>, rows: usize, cols: usize)
    ensures
        list_grid_view(final(table)@) == resized_grid(
            list_grid_view(old(table)@),
            rows as nat,
            cols as nat,
            Seq::empty(),
        ),
        final(table)@.len() == rows,
        forall|r: int| 0 <= r < rows ==> (#[trigger] final(table)@[r])@.len() == cols,
        forall|r: int, c: int|
            0 <= r < rows && 0 <= c < cols ==> #[trigger] final(table)@[r]@[c]@ == (if r < old(
                table,
            )@.len() && c < old(table)@[r]@.len() {
                old(table)@[r]@[c]@
            } else {
                Seq::empty()
            }),
{
    let ghost start = list_grid_view(table@);
    if rows <= table.len() {
        table.truncate(rows);
    } else {
        while table.len() < rows
            invariant
                start.len() <= table@.len() <= rows,
                forall|r: int|
                    0 <= r < table@.len() ==> #[trigger] lists(table@[r]@)
                        == (if r < start.len() {
                        start[r]
                    } else {
                        Seq::empty()
                    }),
            decreases rows - table@.len(),
        {
            table.push(Vec::new());
            proof {
                let last = table@.len() - 1;
                assert(lists(table@[last]@) =~= Seq::<Seq<T>>::empty());
            }
        }
    }
    let mut row: usize = 0;
    while row < rows
        invariant
            table@.len() == rows,
            row <= rows,
            forall|r: int|
                0 <= r < rows ==> #[trigger] lists(table@[r]@) == (if r < row {
                    resized_row(
                        if r < start.len() { start[r] } else { Seq::empty() },
                        cols as nat,
                        Seq::empty(),
                    )
                } else if r < start.len() {
                    start[r]
                } else {
                    Seq::empty()
                }),
        decreases rows - row,
    {
        resize_list_row(&mut table[row], cols);
        row = row + 1;
    }
    assert(list_grid_view(table@) =~= resized_grid(start, rows as nat, cols as nat, Seq::empty()));
    proof {
        lemma_resized_grid_cells(start, rows as nat, cols as nat, Seq::<T>::empty());
        assert forall|r: int| 0 <= r < rows implies #[trigger] lists(table@[r]@) == list_grid_view(
            table@,
        )[r] by {}
        assert forall|r: int| 0 <= r < start.len() implies #[trigger] lists(old(table)@[r]@)
            == start[r] by {}
        assert forall|r: int| 0 <= r < rows implies (#[trigger] table@[r])@.len() == cols by {
            assert(lists(table@[r]@).len() == table@[r]@.len());
            assert(lists(table@[r]@) == list_grid_view(table@)[r]);
        }
        assert forall|r: int, c: int|
            0 <= r < rows && 0 <= c < cols implies #[trigger] table@[r]@[c]@ == (if r < old(
                table,
            )@.len() && c < old(table)@[r]@.len() {
                old(table)@[r]@[c]@
            } else {
                Seq::empty()
            }) by {
            assert(lists(table@[r]@)[c] == table@[r]@[c]@);
            if r < old(table)@.len() && c < old(table)@[r]@.len() {
                assert(lists(old(table)@[r]@)[c] == old(table)@[r]@[c]@);
            }
        }
    }
}

/// Resizing a table to the shape it already has changes nothing: a table that is sized
/// again (as the screens do on every frame) keeps every cell.
pub proof fn lemma_resize_idempotent<A>(g: Seq<Seq<A>>, rows: nat, cols: nat, fill: A)
    ensures
        resized_grid(resized_grid(g, rows, cols, fill), rows, cols, fill) == resized_grid(
            g,
            rows,
            cols,
            fill,
        ),
{
    let once = resized_grid(g, rows, cols, fill);
    let twice = resized_grid(once, rows, cols, fill);
    assert forall|r: int| 0 <= r < rows implies #[trigger] twice[r] == once[r] by {
        assert(twice[r] =~= once[r]);
    }
    assert(twice =~= once);
}

/// A table that already has the requested shape is left as it is.
pub proof fn lemma_resize_same_shape<A>(g: Seq<Seq<A>>, cols: nat, fill: A)
    requires
        forall|r: int| 0 <= r < g.len() ==> (#[trigger] g[r]).len() == cols,
    ensures
        resized_grid(g, g.len(), cols, fill) == g,
{
    let out = resized_grid(g, g.len(), cols, fill);
    assert forall|r: int| 0 <= r < g.len() implies #[trigger] out[r] == g[r] by {
        assert(out[r] =~= g[r]);
    }
    assert(out =~= g);
}

/// A resized table has exactly `rows` rows of `cols` cells; a cell inside the old table
/// keeps its value and any other cell is `fill`.
pub proof fn lemma_resized_grid_cells<A>(old: Seq<Seq<A>>, rows: nat, cols: nat, fill: A)
    ensures
        resized_grid(old, rows, cols, fill).len() == rows,
        forall|r: int| 0 <= r < rows ==> (#[trigger] resized_grid(old, rows, cols, fill)[r]).len() == cols,
        forall|r: int, c: int|
            0 <= r < rows && 0 <= c < cols && r < old.len() && c < old[r].len()
                ==> #[trigger] resized_grid(old, rows, cols, fill)[r][c] == old[r][c],
        forall|r: int, c: int|
            0 <= r < rows && 0 <= c < cols && !(r < old.len() && c < old[r].len())
                ==> #[trigger] resized_grid(old, rows, cols, fill)[r][c] == fill,
{
}

} // verus!
