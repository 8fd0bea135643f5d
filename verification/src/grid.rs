//! Grid normalization: resolving merged table cells (`rowspan`/`colspan`)
//! into a dense rectangular matrix of atomic string values.
//!
//! A table arrives as a list of rows, each a list of cells carrying trimmed
//! text and span counts.  The normalizer walks rows top to bottom, advances a
//! column cursor past slots already occupied by an earlier vertical span,
//! writes the cell text at the origin position and an explicit empty string at
//! every other position the span covers, then right-pads all rows to the
//! widest row.

use vstd::prelude::*;

verus! {

/// One table cell before normalization: trimmed text plus span counts.
pub struct GridCell {
    pub text: String,
    pub rowspan: usize,
    pub colspan: usize,
}

/// The sparse grid state: rows of optionally-occupied slots.
pub type GridState = Seq<Seq<Option<Seq<char>>>>;

/// The occupant of slot `(r, c)`, where out-of-range slots are vacant.
pub open spec fn grid_get(g: GridState, r: int, c: int) -> Option<Seq<char>> {
    if 0 <= r < g.len() && 0 <= c < g[r].len() {
        g[r][c]
    } else {
        None
    }
}

/// The width of the grid: the length of its longest row.
pub open spec fn grid_width(g: GridState) -> int
    decreases g.len(),
{
    if g.len() == 0 {
        0
    } else {
        let rest = grid_width(g.drop_last());
        if g.last().len() > rest {
            g.last().len() as int
        } else {
            rest
        }
    }
}

/// Extends the grid with vacant rows until it has at least `n` rows.
pub open spec fn ensure_rows(g: GridState, n: int) -> GridState
    decreases n - g.len(),
{
    if g.len() >= n {
        g
    } else {
        ensure_rows(g.push(Seq::empty()), n)
    }
}

/// Extends a row with vacant slots until it has at least `n` slots.
pub open spec fn ensure_cols(row: Seq<Option<Seq<char>>>, n: int) -> Seq<Option<Seq<char>>>
    decreases n - row.len(),
{
    if row.len() >= n {
        row
    } else {
        ensure_cols(row.push(None), n)
    }
}

/// Writes `v` into slot `(r, c)`, growing the grid as needed.
pub open spec fn grid_put(g: GridState, r: int, c: int, v: Seq<char>) -> GridState {
    let g1 = ensure_rows(g, r + 1);
    let row = ensure_cols(g1[r], c + 1).update(c, Some(v));
    g1.update(r, row)
}

/// The first column at or after `from` in `row` that is not occupied.
pub open spec fn next_free(row: Seq<Option<Seq<char>>>, from: int) -> int
    decreases row.len() - from,
{
    if from < 0 {
        0
    } else if from >= row.len() {
        from
    } else if row[from] is Some {
        next_free(row, from + 1)
    } else {
        from
    }
}

/// The row `r` of the grid, vacant when the grid has fewer rows.
pub open spec fn grid_row(g: GridState, r: int) -> Seq<Option<Seq<char>>> {
    if 0 <= r < g.len() {
        g[r]
    } else {
        Seq::empty()
    }
}

/// Covers the first `k` columns of one spanned row: the origin position
/// `(row, c0)` of an origin row receives the text, every other covered
/// position an explicit empty string.
pub open spec fn place_cols(
    g: GridState,
    row: int,
    c0: int,
    k: int,
    origin_row: bool,
    text: Seq<char>,
) -> GridState
    decreases k,
{
    if k <= 0 {
        g
    } else {
        let v: Seq<char> = if origin_row && k - 1 == 0 {
            text
        } else {
            Seq::empty()
        };
        grid_put(place_cols(g, row, c0, k - 1, origin_row, text), row, c0 + (k - 1), v)
    }
}

/// Covers the first `k` rows of a cell's span.
pub open spec fn place_rows(
    g: GridState,
    r0: int,
    c0: int,
    k: int,
    cs: int,
    text: Seq<char>,
) -> GridState
    decreases k,
{
    if k <= 0 {
        g
    } else {
        place_cols(place_rows(g, r0, c0, k - 1, cs, text), r0 + (k - 1), c0, cs, k - 1 == 0, text)
    }
}

/// One cell as pure data: its text and its row and column spans.
pub type CellData = (Seq<char>, int, int);

/// Places one cell in row `r`: the cursor advances past occupied slots, the
/// span rectangle is covered, and the cursor moves past the cell's columns.
pub open spec fn place_cell(g: GridState, r: int, cursor: int, cell: CellData) -> (GridState, int) {
    let c0 = next_free(grid_row(g, r), cursor);
    (place_rows(g, r, c0, cell.1, cell.2, cell.0), c0 + cell.2)
}

/// Places the first `k` cells of row `r`, starting from a cursor at column 0.
pub open spec fn place_cells(g: GridState, r: int, cells: Seq<CellData>, k: int) -> (GridState, int)
    decreases k,
{
    if k <= 0 {
        (g, 0)
    } else {
        let prev = place_cells(g, r, cells, k - 1);
        place_cell(prev.0, r, prev.1, cells[k - 1])
    }
}

/// Processes the first `k` input rows into the sparse grid.
pub open spec fn process_rows(rows: Seq<Seq<CellData>>, k: int) -> GridState
    decreases k,
{
    if k <= 0 {
        Seq::empty()
    } else {
        let g = ensure_rows(process_rows(rows, k - 1), k);
        place_cells(g, k - 1, rows[k - 1], rows[k - 1].len() as int).0
    }
}

/// The sparse grid after the full walk over the input rows.
pub open spec fn raw_grid(rows: Seq<Seq<CellData>>) -> GridState {
    process_rows(rows, rows.len() as int)
}

/// A vacant or missing slot rendered as the empty string.
pub open spec fn slot_text(s: Option<Seq<char>>) -> Seq<char> {
    match s {
        Some(v) => v,
        None => Seq::empty(),
    }
}

/// The normalized grid: every row of the sparse grid padded to the global
/// width, vacant slots rendered as empty strings.
pub open spec fn normalized_grid(rows: Seq<Seq<CellData>>) -> Seq<Seq<Seq<char>>> {
    let g = raw_grid(rows);
    let w = grid_width(g);
    Seq::new(g.len() as nat, |i: int| Seq::new(w as nat, |j: int| slot_text(grid_get(g, i, j))))
}

/// The mathematical view of an executable grid of strings.
pub open spec fn rows_view(v: Seq<Vec<String>>) -> Seq<Seq<Seq<char>>> {
    v.map_values(|row: Vec<String>| row@.map_values(|s: String| s@))
}

/// The mathematical view of the executable sparse grid.
pub open spec fn sparse_view(v: Seq<Vec<Option<String>>>) -> GridState {
    v.map_values(|row: Vec<Option<String>>| srow_view(row@))
}

/// The pure-data view of executable grid cells.
pub open spec fn grid_cells_view(v: Seq<Vec<GridCell>>) -> Seq<Seq<CellData>> {
    v.map_values(
        |row: Vec<GridCell>|
            row@.map_values(|c: GridCell| (c.text@, c.rowspan as int, c.colspan as int)),
    )
}

/// The sum of the column spans of one row's cells.
pub open spec fn row_colspan_sum(cells: Seq<CellData>) -> int
    decreases cells.len(),
{
    if cells.len() == 0 {
        0
    } else {
        row_colspan_sum(cells.drop_last()) + cells.last().2
    }
}

/// The sum of all column spans in the table.
pub open spec fn total_colspan(rows: Seq<Seq<CellData>>) -> int
    decreases rows.len(),
{
    if rows.len() == 0 {
        0
    } else {
        total_colspan(rows.drop_last()) + row_colspan_sum(rows.last())
    }
}

/// Size bounds under which normalization cannot overflow an index: a machine
/// limit, not a rule of the algorithm.  Spans are non-negative by
/// construction (they are read from attributes with default 1).
pub open spec fn table_in_bounds(rows: Seq<Seq<CellData>>) -> bool {
    &&& rows.len() <= 0x10000
    &&& (forall|i: int, j: int|
        0 <= i < rows.len() && 0 <= j < rows[i].len() ==> 0 <= (#[trigger] rows[i][j]).1
            <= 0x10000 && 0 <= rows[i][j].2 <= u32::MAX)
    &&& total_colspan(rows) <= 0x10000000
}

// ------------------------------------------------------------------
// Views of the executable sparse grid
// ------------------------------------------------------------------

/// The mathematical view of one executable sparse row.
pub open spec fn srow_view(row: Seq<Option<String>>) -> Seq<Option<Seq<char>>> {
    row.map_values(
        |c: Option<String>|
            match c {
                Some(s) => Some(s@),
                None => None,
            },
    )
}

proof fn lemma_sview_push(v: Seq<Vec<Option<String>>>, row: Vec<Option<String>>)
    ensures
        sparse_view(v.push(row)) == sparse_view(v).push(srow_view(row@)),
{
    assert(sparse_view(v.push(row)) =~= sparse_view(v).push(srow_view(row@)));
}

proof fn lemma_sview_update(v: Seq<Vec<Option<String>>>, i: int, row: Vec<Option<String>>)
    requires
        0 <= i < v.len(),
    ensures
        sparse_view(v.update(i, row)) == sparse_view(v).update(i, srow_view(row@)),
{
    assert(sparse_view(v.update(i, row)) =~= sparse_view(v).update(i, srow_view(row@)));
}

proof fn lemma_srow_push(row: Seq<Option<String>>, c: Option<String>)
    ensures
        srow_view(row.push(c)) == srow_view(row).push(
            match c {
                Some(s) => Some(s@),
                None => None,
            },
        ),
{
    assert(srow_view(row.push(c)) =~= srow_view(row).push(
        match c {
            Some(s) => Some(s@),
            None => None,
        },
    ));
}

// ------------------------------------------------------------------
// Facts about the sparse-grid operations
// ------------------------------------------------------------------

proof fn lemma_ensure_rows_shape(g: GridState, n: int)
    ensures
        ensure_rows(g, n).len() == if g.len() >= n {
            g.len() as int
        } else {
            n
        },
        forall|i: int| 0 <= i < g.len() ==> ensure_rows(g, n)[i] == g[i],
        forall|i: int| g.len() <= i < n ==> ensure_rows(g, n)[i] == Seq::<Option<Seq<char>>>::empty(),
    decreases n - g.len(),
{
    if g.len() < n {
        lemma_ensure_rows_shape(g.push(Seq::empty()), n);
        assert forall|i: int| 0 <= i < g.len() implies ensure_rows(g, n)[i] == g[i] by {
            assert(g.push(Seq::<Option<Seq<char>>>::empty())[i] == g[i]);
        }
        assert forall|i: int| g.len() <= i < n implies ensure_rows(g, n)[i] == Seq::<
            Option<Seq<char>>,
        >::empty() by {
            if i == g.len() {
                assert(g.push(Seq::<Option<Seq<char>>>::empty())[i] == Seq::<
                    Option<Seq<char>>,
                >::empty());
            }
        }
    }
}

proof fn lemma_ensure_rows_width(g: GridState, n: int)
    ensures
        grid_width(ensure_rows(g, n)) == grid_width(g),
    decreases n - g.len(),
{
    if g.len() < n {
        assert(g.push(Seq::<Option<Seq<char>>>::empty()).drop_last() =~= g);
        lemma_ensure_rows_width(g.push(Seq::empty()), n);
    }
}

proof fn lemma_ensure_cols_shape(row: Seq<Option<Seq<char>>>, n: int)
    ensures
        ensure_cols(row, n).len() == if row.len() >= n {
            row.len() as int
        } else {
            n
        },
        forall|i: int| 0 <= i < row.len() ==> ensure_cols(row, n)[i] == row[i],
        forall|i: int| row.len() <= i < n ==> ensure_cols(row, n)[i] is None,
    decreases n - row.len(),
{
    if row.len() < n {
        lemma_ensure_cols_shape(row.push(None), n);
        assert forall|i: int| 0 <= i < row.len() implies ensure_cols(row, n)[i] == row[i] by {
            assert(row.push(None)[i] == row[i]);
        }
        assert forall|i: int| row.len() <= i < n implies ensure_cols(row, n)[i] is None by {
            if i == row.len() {
                assert(row.push(None)[i] is None);
            }
        }
    }
}

/// Each row's length is at most the grid width.
proof fn lemma_width_ge_row(g: GridState, i: int)
    requires
        0 <= i < g.len(),
    ensures
        g[i].len() <= grid_width(g),
    decreases g.len(),
{
    if i == g.len() - 1 {
    } else {
        assert(g.drop_last()[i] == g[i]);
        lemma_width_ge_row(g.drop_last(), i);
    }
}

proof fn lemma_width_nonneg(g: GridState)
    ensures
        grid_width(g) >= 0,
    decreases g.len(),
{
    if g.len() > 0 {
        lemma_width_nonneg(g.drop_last());
    }
}

proof fn lemma_width_update_grow(g: GridState, r: int, row: Seq<Option<Seq<char>>>)
    requires
        0 <= r < g.len(),
        row.len() >= g[r].len(),
    ensures
        grid_width(g.update(r, row)) == if row.len() > grid_width(g) {
            row.len() as int
        } else {
            grid_width(g)
        },
    decreases g.len(),
{
    let g2 = g.update(r, row);
    if r == g.len() - 1 {
        assert(g2.drop_last() =~= g.drop_last());
        assert(g2.last() == row);
    } else {
        assert(g2.drop_last() =~= g.drop_last().update(r, row));
        assert(g.drop_last()[r] == g[r]);
        lemma_width_update_grow(g.drop_last(), r, row);
        assert(g2.last() == g.last());
    }
}

/// The shape of a single write: the target slot holds the new value, every
/// other slot is unchanged, and length and width grow exactly as needed.
proof fn lemma_put_shape(g: GridState, r: int, c: int, v: Seq<char>)
    requires
        r >= 0,
        c >= 0,
    ensures
        grid_put(g, r, c, v).len() == if g.len() >= r + 1 {
            g.len() as int
        } else {
            r + 1
        },
        grid_width(grid_put(g, r, c, v)) == if c + 1 > grid_width(g) {
            c + 1
        } else {
            grid_width(g)
        },
        grid_get(grid_put(g, r, c, v), r, c) == Some(v),
        forall|r2: int, c2: int|
            !(r2 == r && c2 == c) ==> grid_get(grid_put(g, r, c, v), r2, c2) == grid_get(g, r2, c2),
        forall|r2: int| r2 != r ==> grid_row(grid_put(g, r, c, v), r2) == grid_row(g, r2),
        grid_row(grid_put(g, r, c, v), r) == ensure_cols(grid_row(g, r), c + 1).update(c, Some(v)),
{
    let g1 = ensure_rows(g, r + 1);
    lemma_ensure_rows_shape(g, r + 1);
    lemma_ensure_rows_width(g, r + 1);
    let row0 = g1[r];
    lemma_ensure_cols_shape(row0, c + 1);
    let row = ensure_cols(row0, c + 1).update(c, Some(v));
    lemma_width_nonneg(g);
    if r < g.len() {
        lemma_width_ge_row(g, r);
    } else {
        assert(row0 =~= grid_row(g, r));
    }
    lemma_width_update_grow(g1, r, row);
}

// ------------------------------------------------------------------
// Monotonicity and bound facts used for index arithmetic
// ------------------------------------------------------------------

proof fn lemma_place_cols_shape(g: GridState, row: int, c0: int, k: int, o: bool, text: Seq<char>)
    requires
        row >= 0,
        c0 >= 0,
    ensures
        place_cols(g, row, c0, k, o, text).len() >= g.len(),
        k > 0 ==> place_cols(g, row, c0, k, o, text).len() >= row + 1,
        grid_width(place_cols(g, row, c0, k, o, text)) == if k > 0 && c0 + k > grid_width(g) {
            c0 + k
        } else {
            grid_width(g)
        },
        forall|r2: int|
            r2 != row ==> grid_row(place_cols(g, row, c0, k, o, text), r2) == grid_row(g, r2),
    decreases k,
{
    lemma_width_nonneg(g);
    if k > 0 {
        lemma_place_cols_shape(g, row, c0, k - 1, o, text);
        let prev = place_cols(g, row, c0, k - 1, o, text);
        let v: Seq<char> = if o && k - 1 == 0 {
            text
        } else {
            Seq::empty()
        };
        lemma_put_shape(prev, row, c0 + (k - 1), v);
    }
}

proof fn lemma_place_rows_shape(g: GridState, r0: int, c0: int, k: int, cs: int, text: Seq<char>)
    requires
        r0 >= 0,
        c0 >= 0,
    ensures
        place_rows(g, r0, c0, k, cs, text).len() >= g.len(),
        grid_width(place_rows(g, r0, c0, k, cs, text)) == if k > 0 && cs > 0 && c0 + cs
            > grid_width(g) {
            c0 + cs
        } else {
            grid_width(g)
        },
        forall|r2: int|
            !(r0 <= r2 < r0 + k) ==> grid_row(place_rows(g, r0, c0, k, cs, text), r2) == grid_row(
                g,
                r2,
            ),
    decreases k,
{
    lemma_width_nonneg(g);
    if k > 0 {
        lemma_place_rows_shape(g, r0, c0, k - 1, cs, text);
        let prev = place_rows(g, r0, c0, k - 1, cs, text);
        lemma_place_cols_shape(prev, r0 + (k - 1), c0, cs, k - 1 == 0, text);
    }
}

/// `next_free` never backs up, and lands at most just past the row.
proof fn lemma_next_free_bounds(row: Seq<Option<Seq<char>>>, from: int)
    requires
        from >= 0,
    ensures
        from <= next_free(row, from),
        next_free(row, from) <= if from > row.len() {
            from
        } else {
            row.len() as int
        },
    decreases row.len() - from,
{
    if from < row.len() && row[from] is Some {
        lemma_next_free_bounds(row, from + 1);
    }
}

pub proof fn lemma_row_sum_take(cells: Seq<CellData>, i: int)
    requires
        0 <= i < cells.len(),
    ensures
        row_colspan_sum(cells.take(i + 1)) == row_colspan_sum(cells.take(i)) + cells[i].2,
{
    assert(cells.take(i + 1).drop_last() =~= cells.take(i));
    assert(cells.take(i + 1).last() == cells[i]);
}

pub proof fn lemma_row_sum_nonneg(cells: Seq<CellData>)
    requires
        forall|j: int| 0 <= j < cells.len() ==> (#[trigger] cells[j]).2 >= 0,
    ensures
        row_colspan_sum(cells) >= 0,
    decreases cells.len(),
{
    if cells.len() > 0 {
        lemma_row_sum_nonneg(cells.drop_last());
    }
}

pub proof fn lemma_cell_colspan_le(cells: Seq<CellData>, i: int)
    requires
        0 <= i < cells.len(),
        forall|j: int| 0 <= j < cells.len() ==> (#[trigger] cells[j]).2 >= 0,
    ensures
        cells[i].2 <= row_colspan_sum(cells),
{
    lemma_row_sum_take(cells, i);
    lemma_row_sum_nonneg(cells.take(i));
    lemma_row_sum_take_le(cells, i + 1);
}

pub proof fn lemma_row_le_total(rows: Seq<Seq<CellData>>, k: int)
    requires
        0 <= k < rows.len(),
        forall|i: int, j: int|
            0 <= i < rows.len() && 0 <= j < rows[i].len() ==> (#[trigger] rows[i][j]).2 >= 0,
    ensures
        row_colspan_sum(rows[k]) <= total_colspan(rows),
{
    lemma_total_take(rows, k);
    lemma_total_nonneg(rows.take(k));
    lemma_total_take_le(rows, k + 1);
}

pub proof fn lemma_row_sum_take_le(cells: Seq<CellData>, i: int)
    requires
        0 <= i <= cells.len(),
        forall|j: int| 0 <= j < cells.len() ==> (#[trigger] cells[j]).2 >= 0,
    ensures
        row_colspan_sum(cells.take(i)) <= row_colspan_sum(cells),
    decreases cells.len() - i,
{
    if i == cells.len() {
        assert(cells.take(i) =~= cells);
    } else {
        lemma_row_sum_take(cells, i);
        lemma_row_sum_take_le(cells, i + 1);
        assert(cells[i].2 >= 0);
    }
}

pub proof fn lemma_total_take(rows: Seq<Seq<CellData>>, k: int)
    requires
        0 <= k < rows.len(),
    ensures
        total_colspan(rows.take(k + 1)) == total_colspan(rows.take(k)) + row_colspan_sum(rows[k]),
{
    assert(rows.take(k + 1).drop_last() =~= rows.take(k));
    assert(rows.take(k + 1).last() == rows[k]);
}

pub proof fn lemma_total_take_le(rows: Seq<Seq<CellData>>, k: int)
    requires
        0 <= k <= rows.len(),
        forall|i: int, j: int|
            0 <= i < rows.len() && 0 <= j < rows[i].len() ==> (#[trigger] rows[i][j]).2 >= 0,
    ensures
        total_colspan(rows.take(k)) <= total_colspan(rows),
    decreases rows.len() - k,
{
    if k == rows.len() {
        assert(rows.take(k) =~= rows);
    } else {
        lemma_total_take(rows, k);
        lemma_total_take_le(rows, k + 1);
        assert(forall|j: int| 0 <= j < rows[k].len() ==> (#[trigger] rows[k][j]).2 >= 0);
        lemma_row_sum_nonneg(rows[k]);
    }
}

pub proof fn lemma_total_nonneg(rows: Seq<Seq<CellData>>)
    requires
        forall|i: int, j: int|
            0 <= i < rows.len() && 0 <= j < rows[i].len() ==> (#[trigger] rows[i][j]).2 >= 0,
    ensures
        total_colspan(rows) >= 0,
    decreases rows.len(),
{
    if rows.len() > 0 {
        assert(forall|j: int|
            0 <= j < rows.last().len() ==> (#[trigger] rows.last()[j]).2 >= 0) by {
            assert(forall|j: int|
                0 <= j < rows[rows.len() - 1].len() ==> (#[trigger] rows[rows.len() - 1][j]).2
                    >= 0);
        }
        lemma_row_sum_nonneg(rows.last());
        assert(forall|i: int, j: int|
            0 <= i < rows.drop_last().len() && 0 <= j < rows.drop_last()[i].len() ==> (
            #[trigger] rows.drop_last()[i][j]).2 >= 0) by {
            assert(forall|i: int| 0 <= i < rows.len() - 1 ==> rows.drop_last()[i] == rows[i]);
        }
        lemma_total_nonneg(rows.drop_last());
    }
}

// ------------------------------------------------------------------
// Executable helpers
// ------------------------------------------------------------------

/// Appends vacant rows until the sparse grid has at least `n` rows.
fn sparse_ensure_rows(grid: &mut Vec<Vec<Option<String>>>, n: usize)
    ensures
        sparse_view(final(grid)@) == ensure_rows(sparse_view(old(grid)@), n as int),
        final(grid)@.len() == if old(grid)@.len() >= n {
            old(grid)@.len() as int
        } else {
            n as int
        },
{
    let ghost g0 = sparse_view(grid@);
    while grid.len() < n
        invariant
            sparse_view(grid@).len() == grid@.len(),
            ensure_rows(g0, n as int) == ensure_rows(sparse_view(grid@), n as int),
        decreases n - grid@.len(),
    {
        let empty_row: Vec<Option<String>> = Vec::new();
        proof {
            lemma_sview_push(grid@, empty_row);
            assert(srow_view(empty_row@) =~= Seq::<Option<Seq<char>>>::empty());
        }
        grid.push(empty_row);
    }
    proof {
        lemma_ensure_rows_shape(g0, n as int);
        assert(ensure_rows(sparse_view(grid@), n as int) == sparse_view(grid@));
    }
}

/// Writes `v` into slot `(r, c)` of the sparse grid, growing it as needed.
fn sparse_put(grid: &mut Vec<Vec<Option<String>>>, r: usize, c: usize, v: String)
    requires
        r < 0x40000000,
        c < 0x40000000,
    ensures
        sparse_view(final(grid)@) == grid_put(sparse_view(old(grid)@), r as int, c as int, v@),
{
    let ghost g0 = sparse_view(grid@);
    sparse_ensure_rows(grid, r + 1);
    let ghost g1 = ensure_rows(g0, r as int + 1);
    let ghost g1vec = grid@;
    proof {
        lemma_ensure_rows_shape(g0, r as int + 1);
        assert(sparse_view(grid@)[r as int] == srow_view(grid@[r as int]@));
    }
    let row = &mut grid[r];
    let ghost rstart = srow_view(row@);
    proof {
        assert(rstart == g1[r as int]);
    }
    while row.len() < c + 1
        invariant
            c < 0x40000000,
            srow_view(row@).len() == row@.len(),
            ensure_cols(rstart, c as int + 1) == ensure_cols(srow_view(row@), c as int + 1),
        decreases c + 1 - row@.len(),
    {
        proof {
            lemma_srow_push(row@, None);
        }
        row.push(None);
    }
    proof {
        lemma_ensure_cols_shape(rstart, c as int + 1);
        assert(ensure_cols(srow_view(row@), c as int + 1) == srow_view(row@));
    }
    row.set(c, Some(v));
    let ghost rfin = *row;
    proof {
        assert(srow_view(rfin@) =~= ensure_cols(rstart, c as int + 1).update(c as int, Some(v@)));
    }
    proof {
        assert(grid@ == g1vec.update(r as int, rfin));
        lemma_sview_update(g1vec, r as int, rfin);
        assert(sparse_view(g1vec) == g1);
    }
}

/// The first column at or after `from` in `row` that is not occupied.
fn next_free_col(row: &Vec<Option<String>>, from: usize) -> (r: usize)
    requires
        from <= 0x40000000,
        row@.len() <= 0x40000000,
    ensures
        r as int == next_free(srow_view(row@), from as int),
        from <= r,
        r <= if from > row@.len() {
            from as int
        } else {
            row@.len() as int
        },
{
    let mut i = from;
    while i < row.len() && row[i].is_some()
        invariant
            from <= i,
            i <= if from > row@.len() {
                from as int
            } else {
                row@.len() as int
            },
            srow_view(row@).len() == row@.len(),
            next_free(srow_view(row@), from as int) == next_free(srow_view(row@), i as int),
        decreases row@.len() - i,
    {
        proof {
            assert(srow_view(row@)[i as int] is Some);
        }
        i = i + 1;
    }
    proof {
        if i < row@.len() {
            assert(srow_view(row@)[i as int] == (match row@[i as int] {
                Some(s) => Some(s@),
                None => None::<Seq<char>>,
            }));
        }
    }
    i
}


// ------------------------------------------------------------------
// The normalizer
// ------------------------------------------------------------------

/// Converts a table of spanned cells into a dense rectangular grid: the cell
/// text stands at each span's origin, an explicit empty string at every other
/// covered position, and all rows are right-padded to the widest row.
pub fn normalize_table_to_grid(rows: &Vec<Vec<GridCell>>) -> (grid: Vec<Vec<String>>)
    requires
        table_in_bounds(grid_cells_view(rows@)),
    ensures
        rows_view(grid@) == normalized_grid(grid_cells_view(rows@)),
{
    let ghost rseq = grid_cells_view(rows@);
    let mut g: Vec<Vec<Option<String>>> = Vec::new();
    let mut max_cols: usize = 0;
    let nrows = rows.len();
    let mut row_idx: usize = 0;
    proof {
        assert(rseq.take(0) =~= Seq::<Seq<CellData>>::empty());
    }
    while row_idx < nrows
        invariant
            table_in_bounds(rseq),
            rseq == grid_cells_view(rows@),
            nrows == rseq.len(),
            row_idx <= nrows,
            sparse_view(g@) == process_rows(rseq, row_idx as int),
            max_cols as int == grid_width(sparse_view(g@)),
            grid_width(sparse_view(g@)) <= total_colspan(rseq.take(row_idx as int)),
        decreases nrows - row_idx,
    {
        let ghost gprev = sparse_view(g@);
        sparse_ensure_rows(&mut g, row_idx + 1);
        let ghost gs = sparse_view(g@);
        proof {
            lemma_ensure_rows_width(gprev, row_idx as int + 1);
            lemma_total_take_le(rseq, row_idx as int);
            lemma_total_nonneg(rseq);
        }
        let ncells = rows[row_idx].len();
        let mut col_idx: usize = 0;
        let mut i: usize = 0;
        proof {
            lemma_width_nonneg(gs);
            assert(rseq[row_idx as int] == rows@[row_idx as int]@.map_values(
                |c: GridCell| (c.text@, c.rowspan as int, c.colspan as int),
            ));
            assert(rseq[row_idx as int].take(0) =~= Seq::<CellData>::empty());
        }
        while i < ncells
            invariant
                table_in_bounds(rseq),
                rseq == grid_cells_view(rows@),
                nrows == rseq.len(),
                row_idx < nrows,
                ncells == rseq[row_idx as int].len(),
                i <= ncells,
                g@.len() >= row_idx + 1,
                sparse_view(g@) == place_cells(gs, row_idx as int, rseq[row_idx as int], i as int).0,
                col_idx as int == place_cells(gs, row_idx as int, rseq[row_idx as int], i as int).1,
                max_cols as int == grid_width(sparse_view(g@)),
                col_idx as int <= total_colspan(rseq.take(row_idx as int)) + row_colspan_sum(
                    rseq[row_idx as int].take(i as int),
                ),
                grid_width(sparse_view(g@)) <= total_colspan(rseq.take(row_idx as int))
                    + row_colspan_sum(rseq[row_idx as int].take(i as int)),
            decreases ncells - i,
        {
            let ghost cells = rseq[row_idx as int];
            let ghost gc = sparse_view(g@);
            let cell_rowspan = rows[row_idx][i].rowspan;
            let cell_colspan = rows[row_idx][i].colspan;
            proof {
                assert(rseq[row_idx as int] == rows@[row_idx as int]@.map_values(
                    |c: GridCell| (c.text@, c.rowspan as int, c.colspan as int),
                ));
                assert(cells[i as int] == (
                    rows@[row_idx as int]@[i as int].text@,
                    rows@[row_idx as int]@[i as int].rowspan as int,
                    rows@[row_idx as int]@[i as int].colspan as int,
                ));
                lemma_total_take(rseq, row_idx as int);
                lemma_total_take_le(rseq, row_idx as int + 1);
                lemma_row_sum_take_le(cells, i as int);
                lemma_row_sum_nonneg(cells.take(i as int));
                lemma_cell_colspan_le(cells, i as int);
                lemma_row_le_total(rseq, row_idx as int);
                assert(cell_colspan <= 0x10000000);
                assert(grid_width(gc) <= 0x10000000);
                assert(col_idx <= 0x10000000);
                assert(gc[row_idx as int] == srow_view(g@[row_idx as int]@));
                lemma_width_ge_row(gc, row_idx as int);
            }
            let c0 = next_free_col(&g[row_idx], col_idx);
            proof {
                assert(c0 as int == next_free(grid_row(gc, row_idx as int), col_idx as int));
                assert(c0 as int <= total_colspan(rseq.take(row_idx as int)) + row_colspan_sum(
                    cells.take(i as int),
                ));
                assert(c0 <= 0x10000000);
            }
            let ghost text = rseq[row_idx as int][i as int].0;
            let ghost gplaced = place_rows(
                gc,
                row_idx as int,
                c0 as int,
                cell_rowspan as int,
                cell_colspan as int,
                text,
            );
            let mut r: usize = 0;
            while r < cell_rowspan
                invariant
                    rseq == grid_cells_view(rows@),
                    row_idx < rseq.len(),
                    i < rseq[row_idx as int].len(),
                    cell_rowspan as int == rseq[row_idx as int][i as int].1,
                    cell_colspan as int == rseq[row_idx as int][i as int].2,
                    text == rseq[row_idx as int][i as int].0,
                    r <= cell_rowspan,
                    row_idx + cell_rowspan <= 0x20000,
                    c0 + cell_colspan <= 0x20000000,
                    sparse_view(g@) == place_rows(
                        gc,
                        row_idx as int,
                        c0 as int,
                        r as int,
                        cell_colspan as int,
                        text,
                    ),
                    max_cols as int == grid_width(sparse_view(g@)),
                    g@.len() >= row_idx + 1,
                decreases cell_rowspan - r,
            {
                let ghost grow = sparse_view(g@);
                let mut c: usize = 0;
                while c < cell_colspan
                    invariant
                        rseq == grid_cells_view(rows@),
                        row_idx < rseq.len(),
                        i < rseq[row_idx as int].len(),
                        cell_rowspan as int == rseq[row_idx as int][i as int].1,
                        cell_colspan as int == rseq[row_idx as int][i as int].2,
                        text == rseq[row_idx as int][i as int].0,
                        r < cell_rowspan,
                        c <= cell_colspan,
                        row_idx + cell_rowspan <= 0x20000,
                        c0 + cell_colspan <= 0x20000000,
                        sparse_view(g@) == place_cols(
                            grow,
                            row_idx as int + r as int,
                            c0 as int,
                            c as int,
                            r == 0,
                            text,
                        ),
                        grow == place_rows(
                            gc,
                            row_idx as int,
                            c0 as int,
                            r as int,
                            cell_colspan as int,
                            text,
                        ),
                        max_cols as int == grid_width(sparse_view(g@)),
                        g@.len() >= row_idx + 1,
                    decreases cell_colspan - c,
                {
                    let v: String = if r == 0 && c == 0 {
                        proof {
                            assert(rseq[row_idx as int] == rows@[row_idx as int]@.map_values(
                                |cc: GridCell| (cc.text@, cc.rowspan as int, cc.colspan as int),
                            ));
                        }
                        rows[row_idx][i].text.clone()
                    } else {
                        String::new()
                    };
                    let ghost gbefore = sparse_view(g@);
                    proof {
                        lemma_put_shape(gbefore, row_idx as int + r as int, c0 as int + c as int, v@);
                        lemma_width_nonneg(gbefore);
                    }
                    sparse_put(&mut g, row_idx + r, c0 + c, v);
                    if c0 + c + 1 > max_cols {
                        max_cols = c0 + c + 1;
                    }
                    c = c + 1;
                }
                r = r + 1;
            }
            proof {
                assert(sparse_view(g@) == gplaced);
                lemma_place_rows_shape(
                    gc,
                    row_idx as int,
                    c0 as int,
                    cell_rowspan as int,
                    cell_colspan as int,
                    text,
                );
                lemma_row_sum_take(cells, i as int);
                assert(place_cells(gs, row_idx as int, cells, i as int + 1).0 == gplaced);
                assert(place_cells(gs, row_idx as int, cells, i as int + 1).1 == c0
                    + cell_colspan);
            }
            col_idx = c0 + cell_colspan;
            i = i + 1;
        }
        proof {
            assert(sparse_view(g@) == process_rows(rseq, row_idx as int + 1));
            lemma_total_take(rseq, row_idx as int);
            assert(rseq[row_idx as int].take(ncells as int) =~= rseq[row_idx as int]);
        }
        row_idx = row_idx + 1;
    }
    proof {
        assert(rseq.take(nrows as int) =~= rseq);
        assert(sparse_view(g@) == raw_grid(rseq));
    }
    let ghost graw = sparse_view(g@);
    let mut out: Vec<Vec<String>> = Vec::new();
    let glen = g.len();
    let mut ii: usize = 0;
    while ii < glen
        invariant
            glen == g@.len(),
            ii <= glen,
            graw == sparse_view(g@),
            max_cols as int == grid_width(graw),
            out@.len() == ii,
            forall|k: int|
                0 <= k < ii ==> (#[trigger] out@[k])@.map_values(|s: String| s@) == Seq::new(
                    max_cols as nat,
                    |j: int| slot_text(grid_get(graw, k, j)),
                ),
        decreases glen - ii,
    {
        let mut orow: Vec<String> = Vec::new();
        let rlen = g[ii].len();
        let mut j: usize = 0;
        while j < max_cols
            invariant
                graw == sparse_view(g@),
                ii < g@.len(),
                rlen == g@[ii as int]@.len(),
                j <= max_cols,
                orow@.len() == j,
                forall|q: int|
                    0 <= q < j ==> (#[trigger] orow@[q])@ == slot_text(grid_get(graw, ii as int, q)),
            decreases max_cols - j,
        {
            proof {
                assert(graw[ii as int] == srow_view(g@[ii as int]@));
            }
            if j < rlen {
                match &g[ii][j] {
                    Some(s) => {
                        let t = s.clone();
                        orow.push(t);
                    },
                    None => {
                        orow.push(String::new());
                    },
                }
            } else {
                orow.push(String::new());
            }
            j = j + 1;
        }
        proof {
            assert(orow@.map_values(|s: String| s@) =~= Seq::new(
                max_cols as nat,
                |j: int| slot_text(grid_get(graw, ii as int, j)),
            ));
        }
        out.push(orow);
        ii = ii + 1;
    }
    proof {
        assert(rows_view(out@) =~= normalized_grid(rseq));
    }
    out
}


// ------------------------------------------------------------------
// What a single span writes, slot by slot
// ------------------------------------------------------------------

proof fn lemma_ensure_rows_get(g: GridState, n: int, r: int, c: int)
    ensures
        grid_get(ensure_rows(g, n), r, c) == grid_get(g, r, c),
    decreases n - g.len(),
{
    if g.len() < n {
        lemma_ensure_rows_get(g.push(Seq::empty()), n, r, c);
    }
}

/// What covering one row of a span does to that row's slots: the covered
/// range is written (text at an origin row's first column, empty elsewhere),
/// everything else is untouched.
proof fn lemma_place_cols_get(
    g: GridState,
    row: int,
    c0: int,
    k: int,
    o: bool,
    text: Seq<char>,
    r2: int,
    c2: int,
)
    requires
        row >= 0,
        c0 >= 0,
    ensures
        grid_get(place_cols(g, row, c0, k, o, text), r2, c2) == if r2 == row && c0 <= c2 < c0
            + k {
            Some(
                if o && c2 == c0 {
                    text
                } else {
                    Seq::<char>::empty()
                },
            )
        } else {
            grid_get(g, r2, c2)
        },
    decreases k,
{
    if k > 0 {
        lemma_place_cols_get(g, row, c0, k - 1, o, text, r2, c2);
        let prev = place_cols(g, row, c0, k - 1, o, text);
        let v: Seq<char> = if o && k - 1 == 0 {
            text
        } else {
            Seq::empty()
        };
        lemma_put_shape(prev, row, c0 + (k - 1), v);
    }
}

/// What covering a whole span does: the rectangle is written (text at the
/// origin, empty elsewhere), everything else is untouched.
proof fn lemma_place_rows_get(
    g: GridState,
    r0: int,
    c0: int,
    k: int,
    cs: int,
    text: Seq<char>,
    r2: int,
    c2: int,
)
    requires
        r0 >= 0,
        c0 >= 0,
    ensures
        grid_get(place_rows(g, r0, c0, k, cs, text), r2, c2) == if r0 <= r2 < r0 + k && c0 <= c2
            < c0 + cs {
            Some(
                if r2 == r0 && c2 == c0 {
                    text
                } else {
                    Seq::<char>::empty()
                },
            )
        } else {
            grid_get(g, r2, c2)
        },
    decreases k,
{
    if k > 0 {
        lemma_place_rows_get(g, r0, c0, k - 1, cs, text, r2, c2);
        lemma_place_cols_get(
            place_rows(g, r0, c0, k - 1, cs, text),
            r0 + (k - 1),
            c0,
            cs,
            k - 1 == 0,
            text,
            r2,
            c2,
        );
    }
}

/// Every write of a row's later cells lands at or beyond the cursor: slots
/// left of an intermediate cursor never change again, and the cursor never
/// moves backwards.
proof fn lemma_cells_tail(g: GridState, r: int, cells: Seq<CellData>, m: int, k: int)
    requires
        r >= 0,
        0 <= m <= k <= cells.len(),
        forall|q: int| 0 <= q < cells.len() ==> (#[trigger] cells[q]).2 >= 0,
    ensures
        place_cells(g, r, cells, m).1 <= place_cells(g, r, cells, k).1,
        place_cells(g, r, cells, m).1 >= 0 ==> place_cells(g, r, cells, k).1 >= 0,
        forall|r2: int, c2: int|
            c2 < place_cells(g, r, cells, m).1 ==> grid_get(
                place_cells(g, r, cells, k).0,
                r2,
                c2,
            ) == grid_get(place_cells(g, r, cells, m).0, r2, c2),
    decreases k,
{
    if k > m {
        lemma_cells_tail(g, r, cells, m, k - 1);
        let prev = place_cells(g, r, cells, k - 1);
        let cur = place_cells(g, r, cells, k);
        let c0 = next_free(grid_row(prev.0, r), prev.1);
        lemma_next_free_bounds_any(grid_row(prev.0, r), prev.1);
        assert(cells[k - 1].2 >= 0);
        assert forall|r2: int, c2: int| c2 < place_cells(g, r, cells, m).1 implies grid_get(
            cur.0,
            r2,
            c2,
        ) == grid_get(place_cells(g, r, cells, m).0, r2, c2) by {
            lemma_place_rows_get(
                prev.0,
                r,
                c0,
                cells[k - 1].1,
                cells[k - 1].2,
                cells[k - 1].0,
                r2,
                c2,
            );
        }
    }
}

/// `next_free` never backs up (no lower bound needed on `from`).
proof fn lemma_next_free_bounds_any(row: Seq<Option<Seq<char>>>, from: int)
    ensures
        next_free(row, from) >= from,
        next_free(row, from) >= 0,
    decreases row.len() - from,
{
    if from >= 0 && from < row.len() && row[from] is Some {
        lemma_next_free_bounds_any(row, from + 1);
    }
}

/// Every write of a whole row's processing lands at or beyond the first
/// free column: slots left of it (in any row) never change.
proof fn lemma_cells_preserve_left(g: GridState, r: int, cells: Seq<CellData>, k: int)
    requires
        r >= 0,
        0 <= k <= cells.len(),
        forall|q: int| 0 <= q < cells.len() ==> (#[trigger] cells[q]).2 >= 0,
    ensures
        k >= 1 ==> place_cells(g, r, cells, k).1 >= next_free(grid_row(g, r), 0),
        forall|r2: int, c2: int|
            c2 < next_free(grid_row(g, r), 0) ==> grid_get(place_cells(g, r, cells, k).0, r2, c2)
                == grid_get(g, r2, c2),
    decreases k,
{
    let nf0 = next_free(grid_row(g, r), 0);
    lemma_next_free_bounds_any(grid_row(g, r), 0);
    if k > 0 {
        lemma_cells_preserve_left(g, r, cells, k - 1);
        let prev = place_cells(g, r, cells, k - 1);
        let c0 = next_free(grid_row(prev.0, r), prev.1);
        lemma_next_free_bounds_any(grid_row(prev.0, r), prev.1);
        if k == 1 {
            assert(prev == (g, 0int));
            assert(c0 == nf0);
        } else {
            assert(prev.1 >= nf0);
        }
        assert(c0 >= nf0);
        assert forall|r2: int, c2: int| c2 < nf0 implies grid_get(
            place_cells(g, r, cells, k).0,
            r2,
            c2,
        ) == grid_get(g, r2, c2) by {
            lemma_place_rows_get(
                prev.0,
                r,
                c0,
                cells[k - 1].1,
                cells[k - 1].2,
                cells[k - 1].0,
                r2,
                c2,
            );
        }
        assert(place_cells(g, r, cells, k).1 == c0 + cells[k - 1].2);
        assert(cells[k - 1].2 >= 0);
    }
}

/// Processing later rows never touches the slots of earlier rows.
proof fn lemma_process_preserves(rows: Seq<Seq<CellData>>, m: int, k: int, r2: int, c2: int)
    requires
        0 <= r2,
        r2 < m <= k <= rows.len(),
        forall|i: int, j: int|
            0 <= i < rows.len() && 0 <= j < rows[i].len() ==> (#[trigger] rows[i][j]).2 >= 0
                && rows[i][j].1 >= 0,
    ensures
        grid_get(process_rows(rows, k), r2, c2) == grid_get(process_rows(rows, m), r2, c2),
    decreases k,
{
    if k > m {
        lemma_process_preserves(rows, m, k - 1, r2, c2);
        let prev = process_rows(rows, k - 1);
        let g1 = ensure_rows(prev, k);
        lemma_ensure_rows_get(prev, k, r2, c2);
        lemma_row_writes_at_or_below(g1, k - 1, rows[k - 1], rows[k - 1].len() as int, r2, c2);
    }
}

/// Processing row `r` only writes rows at or below `r`.
proof fn lemma_row_writes_at_or_below(
    g: GridState,
    r: int,
    cells: Seq<CellData>,
    k: int,
    r2: int,
    c2: int,
)
    requires
        0 <= r2 < r,
        0 <= k <= cells.len(),
        forall|j: int| 0 <= j < cells.len() ==> (#[trigger] cells[j]).2 >= 0 && cells[j].1 >= 0,
    ensures
        grid_get(place_cells(g, r, cells, k).0, r2, c2) == grid_get(g, r2, c2),
    decreases k,
{
    if k > 0 {
        lemma_row_writes_at_or_below(g, r, cells, k - 1, r2, c2);
        let prev = place_cells(g, r, cells, k - 1);
        let c0 = next_free(grid_row(prev.0, r), prev.1);
        if c0 >= 0 {
            lemma_place_rows_get(
                prev.0,
                r,
                c0,
                cells[k - 1].1,
                cells[k - 1].2,
                cells[k - 1].0,
                r2,
                c2,
            );
        } else {
            lemma_next_free_bounds_any(grid_row(prev.0, r), prev.1);
            assert(c0 >= 0);
        }
    }
}

/// Grid length never shrinks while cells are placed.
proof fn lemma_place_cells_len(g: GridState, r: int, cells: Seq<CellData>, k: int)
    requires
        r >= 0,
        0 <= k <= cells.len(),
    ensures
        place_cells(g, r, cells, k).0.len() >= g.len(),
    decreases k,
{
    if k > 0 {
        lemma_place_cells_len(g, r, cells, k - 1);
        let prev = place_cells(g, r, cells, k - 1);
        let c0 = next_free(grid_row(prev.0, r), prev.1);
        lemma_next_free_bounds_any(grid_row(prev.0, r), prev.1);
        lemma_place_rows_shape(prev.0, r, c0, cells[k - 1].1, cells[k - 1].2, cells[k - 1].0);
    }
}

/// The processed grid holds at least one row per processed input row.
proof fn lemma_process_len(rows: Seq<Seq<CellData>>, k: int)
    requires
        0 <= k <= rows.len(),
    ensures
        process_rows(rows, k).len() >= k,
    decreases k,
{
    if k > 0 {
        lemma_process_len(rows, k - 1);
        let prev = process_rows(rows, k - 1);
        lemma_ensure_rows_shape(prev, k);
        lemma_place_cells_len(ensure_rows(prev, k), k - 1, rows[k - 1], rows[k - 1].len() as int);
    }
}

// ------------------------------------------------------------------
// Span laws
// ------------------------------------------------------------------

/// Law: a first-row cell spanning three columns expands to three header
/// positions — the origin holds the cell's text, the two positions after it
/// hold explicit empty strings — whatever else the table holds.
pub proof fn lemma_colspan_three_header(rows: Seq<Seq<CellData>>)
    requires
        rows.len() >= 1,
        rows[0].len() >= 1,
        rows[0][0].1 == 1,
        rows[0][0].2 == 3,
        forall|i: int, j: int|
            0 <= i < rows.len() && 0 <= j < rows[i].len() ==> (#[trigger] rows[i][j]).2 >= 0
                && rows[i][j].1 >= 0,
    ensures
        normalized_grid(rows).len() >= 1,
        normalized_grid(rows)[0].len() >= 3,
        normalized_grid(rows)[0][0] == rows[0][0].0,
        normalized_grid(rows)[0][1] == Seq::<char>::empty(),
        normalized_grid(rows)[0][2] == Seq::<char>::empty(),
{
    let raw = raw_grid(rows);
    let cells = rows[0];
    let g0 = ensure_rows(Seq::empty(), 1);
    lemma_ensure_rows_shape(Seq::empty(), 1);
    let st1 = place_cells(g0, 0, cells, 1);
    let c00 = next_free(grid_row(g0, 0), 0);
    assert(grid_row(g0, 0).len() == 0);
    assert(c00 == 0);
    assert(place_cells(g0, 0, cells, 0) == (g0, 0int));
    assert(st1 == place_cell(g0, 0, 0, cells[0]));
    assert(st1.0 == place_rows(g0, 0, 0, 1, 3, cells[0].0));
    assert(st1.1 == 3);
    assert forall|c2: int| 0 <= c2 < 3 implies grid_get(st1.0, 0, c2) == Some(
        if c2 == 0 {
            cells[0].0
        } else {
            Seq::<char>::empty()
        },
    ) by {
        lemma_place_rows_get(g0, 0, 0, 1, 3, cells[0].0, 0, c2);
    }
    lemma_cells_tail(g0, 0, cells, 1, cells.len() as int);
    let full = place_cells(g0, 0, cells, cells.len() as int);
    assert(process_rows(rows, 0) == Seq::<Seq<Option<Seq<char>>>>::empty());
    assert(process_rows(rows, 1) == full.0);
    assert forall|c2: int| 0 <= c2 < 3 implies grid_get(process_rows(rows, 1), 0, c2)
        == grid_get(st1.0, 0, c2) by {}
    if rows.len() > 1 {
        lemma_process_preserves(rows, 1, rows.len() as int, 0, 0);
        lemma_process_preserves(rows, 1, rows.len() as int, 0, 1);
        lemma_process_preserves(rows, 1, rows.len() as int, 0, 2);
    } else {
        assert(raw == process_rows(rows, 1));
    }
    assert(grid_get(raw, 0, 0) == Some(cells[0].0));
    assert(grid_get(raw, 0, 1) == Some(Seq::<char>::empty()));
    assert(grid_get(raw, 0, 2) == Some(Seq::<char>::empty()));
    lemma_process_len(rows, rows.len() as int);
    assert(raw.len() >= 1);
    assert(raw[0].len() >= 3) by {
        assert(grid_get(raw, 0, 2) is Some);
    }
    lemma_width_ge_row(raw, 0);
    assert(grid_width(raw) >= 3);
    lemma_width_nonneg(raw);
    assert(normalized_grid(rows)[0] == Seq::new(
        grid_width(raw) as nat,
        |j: int| slot_text(grid_get(raw, 0, j)),
    ));
}

/// Law: a first-row cell spanning two rows writes its text at the origin and
/// an explicit empty string — not a missing column — into the slot directly
/// below it; later cells and rows leave both slots alone.
pub proof fn lemma_rowspan_two_below(rows: Seq<Seq<CellData>>)
    requires
        rows.len() >= 2,
        rows[0].len() >= 1,
        rows[0][0].1 == 2,
        rows[0][0].2 == 1,
        forall|i: int, j: int|
            0 <= i < rows.len() && 0 <= j < rows[i].len() ==> (#[trigger] rows[i][j]).2 >= 0
                && rows[i][j].1 >= 0,
    ensures
        normalized_grid(rows).len() >= 2,
        normalized_grid(rows)[0].len() >= 1,
        normalized_grid(rows)[1].len() >= 1,
        normalized_grid(rows)[0][0] == rows[0][0].0,
        normalized_grid(rows)[1][0] == Seq::<char>::empty(),
{
    let raw = raw_grid(rows);
    let cells = rows[0];
    let g0 = ensure_rows(Seq::empty(), 1);
    lemma_ensure_rows_shape(Seq::empty(), 1);
    let st1 = place_cells(g0, 0, cells, 1);
    let c00 = next_free(grid_row(g0, 0), 0);
    assert(grid_row(g0, 0).len() == 0);
    assert(c00 == 0);
    assert(place_cells(g0, 0, cells, 0) == (g0, 0int));
    assert(st1 == place_cell(g0, 0, 0, cells[0]));
    assert(st1.0 == place_rows(g0, 0, 0, 2, 1, cells[0].0));
    assert(st1.1 == 1);
    lemma_place_rows_get(g0, 0, 0, 2, 1, cells[0].0, 0, 0);
    lemma_place_rows_get(g0, 0, 0, 2, 1, cells[0].0, 1, 0);
    assert(grid_get(st1.0, 0, 0) == Some(cells[0].0));
    assert(grid_get(st1.0, 1, 0) == Some(Seq::<char>::empty()));
    lemma_cells_tail(g0, 0, cells, 1, cells.len() as int);
    let row0done = process_rows(rows, 1);
    assert(process_rows(rows, 0) == Seq::<Seq<Option<Seq<char>>>>::empty());
    assert(row0done == place_cells(g0, 0, cells, cells.len() as int).0);
    assert(grid_get(row0done, 0, 0) == Some(cells[0].0));
    assert(grid_get(row0done, 1, 0) == Some(Seq::<char>::empty()));
    // Row 1: its first free column is past the occupied slot (1, 0).
    let g2 = ensure_rows(row0done, 2);
    lemma_ensure_rows_get(row0done, 2, 1, 0);
    lemma_ensure_rows_get(row0done, 2, 0, 0);
    assert(grid_get(g2, 1, 0) == Some(Seq::<char>::empty()));
    assert(grid_row(g2, 1)[0] is Some) by {
        assert(grid_get(g2, 1, 0) is Some);
    }
    assert(next_free(grid_row(g2, 1), 0) >= 1) by {
        lemma_next_free_bounds_any(grid_row(g2, 1), 1);
    }
    lemma_cells_preserve_left(g2, 1, rows[1], rows[1].len() as int);
    let row1done = process_rows(rows, 2);
    assert(grid_get(row1done, 1, 0) == grid_get(g2, 1, 0));
    assert(grid_get(row1done, 0, 0) == grid_get(g2, 0, 0));
    if rows.len() > 2 {
        lemma_process_preserves(rows, 2, rows.len() as int, 0, 0);
        lemma_process_preserves(rows, 2, rows.len() as int, 1, 0);
    } else {
        assert(raw == process_rows(rows, 2));
    }
    assert(grid_get(raw, 0, 0) == Some(cells[0].0));
    assert(grid_get(raw, 1, 0) == Some(Seq::<char>::empty()));
    lemma_process_len(rows, rows.len() as int);
    assert(raw.len() >= 2);
    assert(raw[0].len() >= 1) by {
        assert(grid_get(raw, 0, 0) is Some);
    }
    assert(raw[1].len() >= 1) by {
        assert(grid_get(raw, 1, 0) is Some);
    }
    lemma_width_ge_row(raw, 0);
    lemma_width_nonneg(raw);
    assert(normalized_grid(rows)[0] == Seq::new(
        grid_width(raw) as nat,
        |j: int| slot_text(grid_get(raw, 0, j)),
    ));
    assert(normalized_grid(rows)[1] == Seq::new(
        grid_width(raw) as nat,
        |j: int| slot_text(grid_get(raw, 1, j)),
    ));
}


// ------------------------------------------------------------------
// The span-free law
// ------------------------------------------------------------------

/// Placing unit-span cells into a fresh row writes them one per column, in
/// order, and touches nothing else.
proof fn lemma_unit_row(g: GridState, r: int, cells: Seq<CellData>, k: int)
    requires
        0 <= r < g.len(),
        0 <= k <= cells.len(),
        grid_row(g, r).len() == 0,
        forall|j: int| 0 <= j < cells.len() ==> (#[trigger] cells[j]).1 == 1 && cells[j].2 == 1,
    ensures
        place_cells(g, r, cells, k).1 == k,
        place_cells(g, r, cells, k).0.len() == g.len(),
        grid_row(place_cells(g, r, cells, k).0, r) == Seq::new(
            k as nat,
            |q: int| Some(cells[q].0),
        ),
        forall|r2: int|
            r2 != r ==> grid_row(#[trigger] place_cells(g, r, cells, k).0, r2) == grid_row(g, r2),
    decreases k,
{
    if k == 0 {
        assert(grid_row(g, r) =~= Seq::new(0, |q: int| Some(cells[q].0)));
    } else {
        lemma_unit_row(g, r, cells, k - 1);
        let prev = place_cells(g, r, cells, k - 1);
        let row_prev = grid_row(prev.0, r);
        assert(row_prev.len() == k - 1);
        let c0 = next_free(row_prev, k - 1);
        assert(c0 == k - 1);
        let text = cells[k - 1].0;
        assert(place_cells(g, r, cells, k) == place_cell(prev.0, r, prev.1, cells[k - 1]));
        assert(place_rows(prev.0, r, c0, 0, 1, text) == prev.0);
        assert(place_rows(prev.0, r, c0, 1, 1, text) == place_cols(prev.0, r, c0, 1, true, text));
        assert(place_cols(prev.0, r, c0, 0, true, text) == prev.0);
        assert(place_cols(prev.0, r, c0, 1, true, text) == grid_put(prev.0, r, c0, text));
        lemma_put_shape(prev.0, r, c0, text);
        assert(grid_row(grid_put(prev.0, r, c0, text), r) == ensure_cols(row_prev, k).update(
            k - 1,
            Some(text),
        ));
        lemma_ensure_cols_shape(row_prev, k);
        assert(cells[k - 1].1 == 1 && cells[k - 1].2 == 1);
        assert(place_cell(prev.0, r, prev.1, cells[k - 1]).0 == place_rows(
            prev.0,
            r,
            c0,
            1,
            1,
            text,
        ));
        assert(place_cells(g, r, cells, k).0 == grid_put(prev.0, r, c0, text));
        assert(grid_row(place_cells(g, r, cells, k).0, r) == ensure_cols(row_prev, k).update(
            k - 1,
            Some(text),
        ));
        assert(row_prev == Seq::new((k - 1) as nat, |q: int| Some(cells[q].0)));
        assert forall|q: int| 0 <= q < k implies ensure_cols(row_prev, k).update(
            k - 1,
            Some(text),
        )[q] == Some(cells[q].0) by {
            if q < k - 1 {
                assert(ensure_cols(row_prev, k)[q] == row_prev[q]);
                assert(row_prev[q] == Some(cells[q].0));
            }
        }
        assert(grid_row(place_cells(g, r, cells, k).0, r) =~= Seq::new(
            k as nat,
            |q: int| Some(cells[q].0),
        ));
        assert(place_cells(g, r, cells, k).1 == c0 + 1);
    }
}

/// Processing a table of unit-span cells yields exactly one grid row per
/// input row, holding the cells' texts in order.
proof fn lemma_unit_process(rows: Seq<Seq<CellData>>, w: int, k: int)
    requires
        0 <= k <= rows.len(),
        w >= 0,
        forall|i: int| 0 <= i < rows.len() ==> (#[trigger] rows[i]).len() == w,
        forall|i: int, j: int|
            0 <= i < rows.len() && 0 <= j < rows[i].len() ==> (#[trigger] rows[i][j]).1 == 1
                && rows[i][j].2 == 1,
    ensures
        process_rows(rows, k).len() == k,
        forall|i: int|
            0 <= i < k ==> #[trigger] process_rows(rows, k)[i] == Seq::new(
                w as nat,
                |j: int| Some(rows[i][j].0),
            ),
    decreases k,
{
    if k > 0 {
        lemma_unit_process(rows, w, k - 1);
        let prev = process_rows(rows, k - 1);
        let g1 = ensure_rows(prev, k);
        lemma_ensure_rows_shape(prev, k);
        assert(g1.len() == k);
        assert(g1[k - 1] == Seq::<Option<Seq<char>>>::empty());
        assert(grid_row(g1, k - 1).len() == 0);
        assert(forall|j: int|
            0 <= j < rows[k - 1].len() ==> (#[trigger] rows[k - 1][j]).1 == 1 && rows[k - 1][j].2
                == 1);
        lemma_unit_row(g1, k - 1, rows[k - 1], w);
        assert(rows[k - 1].len() == w);
        let cur = process_rows(rows, k);
        assert(cur == place_cells(g1, k - 1, rows[k - 1], w).0);
        assert(cur.len() == k);
        assert forall|i: int| 0 <= i < k implies #[trigger] cur[i] == Seq::new(
            w as nat,
            |j: int| Some(rows[i][j].0),
        ) by {
            if i == k - 1 {
                assert(grid_row(cur, k - 1) == Seq::new(w as nat, |j: int| Some(rows[k - 1][j].0)));
                assert(cur[i] == grid_row(cur, i));
            } else {
                assert(grid_row(cur, i) == grid_row(g1, i));
                assert(grid_row(g1, i) == g1[i]);
                assert(g1[i] == prev[i]);
                assert(cur[i] == grid_row(cur, i));
            }
        }
    }
}

/// The width of a grid whose rows all have one length.
proof fn lemma_uniform_width(g: GridState, w: int)
    requires
        w >= 0,
        forall|i: int| 0 <= i < g.len() ==> (#[trigger] g[i]).len() == w,
    ensures
        grid_width(g) == if g.len() == 0 {
            0int
        } else {
            w
        },
    decreases g.len(),
{
    if g.len() > 0 {
        assert(forall|i: int|
            0 <= i < g.drop_last().len() ==> (#[trigger] g.drop_last()[i]).len() == w);
        lemma_uniform_width(g.drop_last(), w);
    }
}

/// Law: for a table with no merged cells and rows of one width, the
/// normalized grid is exactly the literal cell text, row for row and column
/// for column, with no added empties.
pub proof fn lemma_no_spans_identity(rows: Seq<Seq<CellData>>, w: int)
    requires
        w >= 0,
        forall|i: int| 0 <= i < rows.len() ==> (#[trigger] rows[i]).len() == w,
        forall|i: int, j: int|
            0 <= i < rows.len() && 0 <= j < rows[i].len() ==> (#[trigger] rows[i][j]).1 == 1
                && rows[i][j].2 == 1,
    ensures
        normalized_grid(rows).len() == rows.len(),
        forall|i: int|
            0 <= i < rows.len() ==> (#[trigger] normalized_grid(rows)[i]).len() == w,
        forall|i: int, j: int|
            0 <= i < rows.len() && 0 <= j < w ==> #[trigger] normalized_grid(rows)[i][j]
                == rows[i][j].0,
{
    let n = rows.len() as int;
    lemma_unit_process(rows, w, n);
    let raw = raw_grid(rows);
    assert(raw.len() == n);
    assert(forall|i: int| 0 <= i < n ==> (#[trigger] raw[i]).len() == w);
    lemma_uniform_width(raw, w);
    assert forall|i: int, j: int| 0 <= i < n && 0 <= j < w implies #[trigger] normalized_grid(
        rows,
    )[i][j] == rows[i][j].0 by {
        assert(raw[i] == Seq::new(w as nat, |q: int| Some(rows[i][q].0)));
        assert(grid_get(raw, i, j) == Some(rows[i][j].0));
        assert(normalized_grid(rows)[i] == Seq::new(
            grid_width(raw) as nat,
            |q: int| slot_text(grid_get(raw, i, q)),
        ));
    }
}

} // verus!

