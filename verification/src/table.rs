//! Table parsing: selecting the fixed tables of a page, reading their rows
//! and cells through the HTML parser, normalizing merged cells into a
//! rectangular grid, and rendering each parsed table as a JSON document.

use vstd::prelude::*;
use crate::grid::{
    GridCell, CellData, normalize_table_to_grid, normalized_grid, rows_view, table_in_bounds,
    row_colspan_sum, total_colspan, grid_cells_view, lemma_row_sum_take, lemma_row_sum_take_le,
    lemma_row_sum_nonneg, lemma_total_take, lemma_total_take_le, lemma_total_nonneg,
};
use crate::textutil::{all_digits, dec_value, dec_str, parse_u32, usize_to_string};

verus! {

/// One cell as read from the markup: trimmed text and the raw span
/// attribute values.
pub struct RawCell {
    pub text: String,
    pub rowspan_attr: Option<String>,
    pub colspan_attr: Option<String>,
}

/// The view of extracted rows of cells: text and raw attribute views.
pub open spec fn raw_rows_view(v: Seq<Vec<RawCell>>) -> Seq<
    Seq<(Seq<char>, Option<Seq<char>>, Option<Seq<char>>)>,
> {
    v.map_values(
        |row: Vec<RawCell>|
            row@.map_values(
                |c: RawCell|
                    (
                        c.text@,
                        match c.rowspan_attr {
                            Some(s) => Some(s@),
                            None => None,
                        },
                        match c.colspan_attr {
                            Some(s) => Some(s@),
                            None => None,
                        },
                    ),
            ),
    )
}

/// The HTML of each `table.table_fixed` element of a document, in document
/// order.  The result depends on the document text alone.
pub uninterp spec fn fixed_tables_of(html: Seq<char>) -> Seq<Seq<char>>;

/// Relies on scraper's `Html::parse_document` and `Selector`: selects the
/// `table.table_fixed` elements and hands back each table's HTML.
#[verifier::external_body]
fn select_fixed_tables(html: &str) -> (r: Vec<String>)
    ensures
        r@.map_values(|s: String| s@) == fixed_tables_of(html@),
{
    let doc = scraper::Html::parse_document(html);
    let sel = scraper::Selector::parse("table.table_fixed").unwrap();
    doc.select(&sel).map(|e| e.html()).collect()
}

/// The rows and cells of a table fragment: each cell's trimmed text and its
/// raw `rowspan`/`colspan` attribute values.  The result depends on the
/// fragment text alone.
pub uninterp spec fn table_cells_of(html: Seq<char>) -> Seq<
    Seq<(Seq<char>, Option<Seq<char>>, Option<Seq<char>>)>,
>;

/// Relies on scraper's `Html::parse_fragment` and `Selector`: selects the
/// `tr` rows and their `td, th` cells, and hands back each cell's trimmed
/// text together with its raw span attributes.
#[verifier::external_body]
fn extract_table_cells(html: &str) -> (r: Vec<Vec<RawCell>>)
    ensures
        raw_rows_view(r@) == table_cells_of(html@),
{
    let doc = scraper::Html::parse_fragment(html);
    let tr = scraper::Selector::parse("tr").unwrap();
    let cell = scraper::Selector::parse("td, th").unwrap();
    doc.select(&tr).map(
        |row|
            row.select(&cell).map(
                |c| RawCell {
                    text: c.text().collect::<String>().trim().to_string(),
                    rowspan_attr: c.value().attr("rowspan").map(|s| s.to_string()),
                    colspan_attr: c.value().attr("colspan").map(|s| s.to_string()),
                },
            ).collect(),
    ).collect()
}

// ------------------------------------------------------------------
// Span attributes
// ------------------------------------------------------------------

/// The span named by a raw attribute: its decimal value, or 1 when the
/// attribute is absent or does not read as a number.
pub open spec fn spec_span(attr: Option<Seq<char>>) -> int {
    match attr {
        None => 1,
        Some(s) => if s.len() > 0 && all_digits(s) && dec_value(s) <= u32::MAX {
            dec_value(s) as int
        } else {
            1
        },
    }
}

/// Reads one span attribute, defaulting to 1.
pub fn span_from_attr(attr: &Option<String>) -> (r: usize)
    ensures
        r as int == spec_span(
            match *attr {
                Some(s) => Some(s@),
                None => None,
            },
        ),
        r <= u32::MAX,
{
    match attr {
        None => 1,
        Some(s) => match parse_u32(s.as_str()) {
            Some(v) => v as usize,
            None => 1,
        },
    }
}

/// The grid cells a list of raw rows stands for.
pub open spec fn spec_grid_cells(
    rows: Seq<Seq<(Seq<char>, Option<Seq<char>>, Option<Seq<char>>)>>,
) -> Seq<Seq<(Seq<char>, int, int)>> {
    rows.map_values(
        |row: Seq<(Seq<char>, Option<Seq<char>>, Option<Seq<char>>)>|
            row.map_values(
                |c: (Seq<char>, Option<Seq<char>>, Option<Seq<char>>)|
                    (c.0, spec_span(c.1), spec_span(c.2)),
            ),
    )
}

/// Converts raw cells to grid cells: text kept, spans read with default 1.
pub fn cells_to_grid(rows: Vec<Vec<RawCell>>) -> (r: Vec<Vec<GridCell>>)
    ensures
        grid_cells_view(r@) == spec_grid_cells(raw_rows_view(rows@)),
        r@.len() == rows@.len(),
{
    let mut out: Vec<Vec<GridCell>> = Vec::new();
    let mut rows = rows;
    let ghost orows = rows@;
    while rows.len() > 0
        invariant
            out@.len() + rows@.len() == orows.len(),
            rows@ == orows.skip(out@.len() as int),
            forall|i: int|
                0 <= i < out@.len() ==> (#[trigger] out@[i])@.map_values(
                    |c: GridCell| (c.text@, c.rowspan as int, c.colspan as int),
                ) == spec_grid_cells(raw_rows_view(orows))[i],
        decreases rows@.len(),
    {
        let ghost i = out@.len() as int;
        let row = rows.remove(0);
        proof {
            assert(row == orows.skip(i)[0]);
            assert(row == orows[i]);
            assert(rows@ =~= orows.skip(i + 1));
        }
        let mut orow_out: Vec<GridCell> = Vec::new();
        let mut row = row;
        let ghost ocells = row@;
        while row.len() > 0
            invariant
                orow_out@.len() + row@.len() == ocells.len(),
                row@ == ocells.skip(orow_out@.len() as int),
                forall|j: int|
                    0 <= j < orow_out@.len() ==> (#[trigger] orow_out@[j]).text@ == ocells[j].text@
                        && orow_out@[j].rowspan as int == spec_span(
                        match ocells[j].rowspan_attr {
                            Some(s) => Some(s@),
                            None => None,
                        },
                    ) && orow_out@[j].colspan as int == spec_span(
                        match ocells[j].colspan_attr {
                            Some(s) => Some(s@),
                            None => None,
                        },
                    ),
            decreases row@.len(),
        {
            let ghost j = orow_out@.len() as int;
            let c = row.remove(0);
            proof {
                assert(c == ocells.skip(j)[0]);
                assert(c == ocells[j]);
                assert(row@ =~= ocells.skip(j + 1));
            }
            let rowspan = span_from_attr(&c.rowspan_attr);
            let colspan = span_from_attr(&c.colspan_attr);
            orow_out.push(GridCell { text: c.text, rowspan, colspan });
        }
        proof {
            assert(ocells.skip(ocells.len() as int) =~= Seq::<RawCell>::empty());
        }
        proof {
            assert(orow_out@.map_values(
                |c: GridCell| (c.text@, c.rowspan as int, c.colspan as int),
            ) =~= spec_grid_cells(raw_rows_view(orows))[i]) by {
                assert(raw_rows_view(orows)[i] == orows[i]@.map_values(
                    |c: RawCell|
                        (
                            c.text@,
                            match c.rowspan_attr {
                                Some(s) => Some(s@),
                                None => None,
                            },
                            match c.colspan_attr {
                                Some(s) => Some(s@),
                                None => None,
                            },
                        ),
                ));
            }
        }
        out.push(orow_out);
    }
    proof {
        assert(grid_cells_view(out@) =~= spec_grid_cells(raw_rows_view(orows)));
    }
    out
}


// ------------------------------------------------------------------
// Size bounds
// ------------------------------------------------------------------

/// Decides [`table_in_bounds`] for converted cells: row count, row spans and
/// the total column span within the machine limits.
fn check_table_bounds(rows: &Vec<Vec<GridCell>>) -> (r: bool)
    requires
        forall|i: int, j: int|
            0 <= i < rows@.len() && 0 <= j < rows@[i]@.len() ==> (#[trigger] rows@[i]@[j]).rowspan
                <= u32::MAX && rows@[i]@[j].colspan <= u32::MAX,
    ensures
        r == table_in_bounds(grid_cells_view(rows@)),
{
    let ghost view = grid_cells_view(rows@);
    proof {
        assert(forall|i: int|
            0 <= i < rows@.len() ==> #[trigger] view[i] == rows@[i]@.map_values(
                |c: GridCell| (c.text@, c.rowspan as int, c.colspan as int),
            ));
        assert(forall|i: int, j: int|
            0 <= i < view.len() && 0 <= j < view[i].len() ==> 0 <= (#[trigger] view[i][j]).1
                <= u32::MAX && 0 <= view[i][j].2 <= u32::MAX);
    }
    if rows.len() > 0x10000 {
        return false;
    }
    let mut total: u64 = 0;
    let mut i: usize = 0;
    proof {
        assert(view.take(0) =~= Seq::<Seq<CellData>>::empty());
    }
    while i < rows.len()
        invariant
            i <= rows@.len(),
            rows@.len() <= 0x10000,
            view == grid_cells_view(rows@),
            forall|a: int, b: int|
                0 <= a < view.len() && 0 <= b < view[a].len() ==> 0 <= (#[trigger] view[a][b]).1
                    <= u32::MAX && 0 <= view[a][b].2 <= u32::MAX,
            forall|a: int, b: int|
                0 <= a < i && 0 <= b < view[a].len() ==> (#[trigger] view[a][b]).1 <= 0x10000,
            total as int == total_colspan(view.take(i as int)),
            total <= 0x10000000,
        decreases rows@.len() - i,
    {
        proof {
            assert(view[i as int] == rows@[i as int]@.map_values(
                |c: GridCell| (c.text@, c.rowspan as int, c.colspan as int),
            ));
            assert(view[i as int].take(0) =~= Seq::<CellData>::empty());
        }
        let ghost cells = view[i as int];
        let mut row_total: u64 = 0;
        let mut j: usize = 0;
        while j < rows[i].len()
            invariant
                i < rows@.len(),
                j <= cells.len(),
                cells == view[i as int],
                view == grid_cells_view(rows@),
                cells.len() == rows@[i as int]@.len(),
                cells == rows@[i as int]@.map_values(
                    |c: GridCell| (c.text@, c.rowspan as int, c.colspan as int),
                ),
                forall|a: int, b: int|
                    0 <= a < view.len() && 0 <= b < view[a].len() ==> 0 <= (
                    #[trigger] view[a][b]).1 <= u32::MAX && 0 <= view[a][b].2 <= u32::MAX,
                forall|b: int| 0 <= b < j ==> (#[trigger] cells[b]).1 <= 0x10000,
                row_total as int == row_colspan_sum(cells.take(j as int)),
                row_total <= 0x10000000,
                total as int == total_colspan(view.take(i as int)),
                total <= 0x10000000,
            decreases cells.len() - j,
        {
            let rs = rows[i][j].rowspan;
            let cs = rows[i][j].colspan;
            proof {
                assert(cells[j as int] == (
                    rows@[i as int]@[j as int].text@,
                    rows@[i as int]@[j as int].rowspan as int,
                    rows@[i as int]@[j as int].colspan as int,
                ));
                lemma_row_sum_take(cells, j as int);
            }
            if rs > 0x10000 {
                proof {
                    assert(!table_in_bounds(view));
                }
                return false;
            }
            row_total = row_total + (cs as u64);
            if row_total > 0x10000000 {
                proof {
                    assert(forall|b: int| 0 <= b < cells.len() ==> (#[trigger] cells[b]).2 >= 0);
                    lemma_row_sum_take_le(cells, j as int + 1);
                    assert(row_colspan_sum(cells) > 0x10000000);
                    lemma_total_take(view, i as int);
                    assert(total_colspan(view.take(i as int + 1)) > 0x10000000);
                    assert(forall|a: int, b: int|
                        0 <= a < view.take(i as int + 1).len() && 0 <= b < view.take(
                            i as int + 1,
                        )[a].len() ==> (#[trigger] view.take(i as int + 1)[a][b]).2 >= 0);
                    lemma_total_take_le(view, i as int + 1);
                    assert(!table_in_bounds(view));
                }
                return false;
            }
            j = j + 1;
        }
        proof {
            assert(cells.take(cells.len() as int) =~= cells);
            lemma_total_take(view, i as int);
        }
        total = total + row_total;
        if total > 0x10000000 {
            proof {
                assert(total_colspan(view.take(i as int + 1)) > 0x10000000);
                assert(forall|a: int, b: int|
                    0 <= a < view.take(i as int + 1).len() && 0 <= b < view.take(
                        i as int + 1,
                    )[a].len() ==> (#[trigger] view.take(i as int + 1)[a][b]).2 >= 0);
                lemma_total_take_le(view, i as int + 1);
                assert(!table_in_bounds(view));
            }
            return false;
        }
        i = i + 1;
    }
    proof {
        assert(view.take(view.len() as int) =~= view);
    }
    true
}


// ------------------------------------------------------------------
// Parsed tables
// ------------------------------------------------------------------

/// One normalized table: the first grid row as headers, the rest as data
/// rows, all of one width.
pub struct TableWithHeaderAndValues {
    pub headers: Vec<String>,
    pub rows: Vec<Vec<String>>,
}

/// The outcome of parsing the tables of a page.
pub struct ParsedTableData {
    /// Number of input lines.
    pub line_count: usize,
    /// Length of the input in bytes.
    pub char_count: usize,
    /// A one-line summary of what was parsed.
    pub summary: String,
    /// One JSON document per parsed table.
    pub data: Vec<String>,
}

/// The view of one parsed table: header texts and row texts.
pub open spec fn parsed_table_view(t: TableWithHeaderAndValues) -> (
    Seq<Seq<char>>,
    Seq<Seq<Seq<char>>>,
) {
    (t.headers@.map_values(|s: String| s@), rows_view(t.rows@))
}

/// The grid a table fragment normalizes to.
pub open spec fn spec_table_grid(html: Seq<char>) -> Seq<Seq<Seq<char>>> {
    normalized_grid(spec_grid_cells(table_cells_of(html)))
}

/// Whether a table fragment yields a non-empty grid.
pub open spec fn table_nonempty(html: Seq<char>) -> bool {
    table_cells_of(html).len() > 0 && spec_table_grid(html).len() > 0
}

/// Whether a table fragment's cells stay within the machine size bounds.
pub open spec fn table_bounds_ok(html: Seq<char>) -> bool {
    table_in_bounds(spec_grid_cells(table_cells_of(html)))
}

/// The parsed views of the first `k` table fragments, empty tables skipped.
pub open spec fn spec_parse_tables(tables: Seq<Seq<char>>, k: int) -> Seq<
    (Seq<Seq<char>>, Seq<Seq<Seq<char>>>),
>
    decreases k,
{
    if k <= 0 {
        Seq::empty()
    } else {
        spec_parse_tables(tables, k - 1) + (if table_nonempty(tables[k - 1]) {
            seq![
                (
                    spec_table_grid(tables[k - 1])[0],
                    spec_table_grid(tables[k - 1]).skip(1),
                ),
            ]
        } else {
            Seq::empty()
        })
    }
}

/// Parses each table fragment into headers and data rows: merged cells are
/// normalized into a rectangular grid, the first row becomes the headers.
/// A fragment with no rows is skipped; a table over the machine size bounds
/// fails the whole call; with no parsable table the call fails.
pub fn parse_tables_header_and_values(tables: &Vec<String>) -> (r: Result<
    Vec<TableWithHeaderAndValues>,
    String,
>)
    ensures
        ({
            let views = tables@.map_values(|s: String| s@);
            let parsed = spec_parse_tables(views, views.len() as int);
            &&& ((forall|i: int| 0 <= i < views.len() ==> table_bounds_ok(#[trigger] views[i]))
                ==> {
                &&& (r is Ok <==> parsed.len() > 0)
                &&& (r matches Ok(out) ==> out@.len() == parsed.len() && (forall|i: int|
                    0 <= i < out@.len() ==> parsed_table_view(#[trigger] out@[i]) == parsed[i]))
                &&& (r matches Err(e) ==> e@ == "No valid tables found"@)
            })
            &&& ((exists|i: int| 0 <= i < views.len() && !table_bounds_ok(#[trigger] views[i]))
                ==> r is Err)
        }),
{
    let ghost views = tables@.map_values(|s: String| s@);
    let mut out: Vec<TableWithHeaderAndValues> = Vec::new();
    let mut i: usize = 0;
    while i < tables.len()
        invariant
            i <= tables@.len(),
            views == tables@.map_values(|s: String| s@),
            forall|q: int| 0 <= q < i ==> table_bounds_ok(#[trigger] views[q]),
            out@.len() == spec_parse_tables(views, i as int).len(),
            forall|q: int|
                0 <= q < out@.len() ==> parsed_table_view(#[trigger] out@[q]) == spec_parse_tables(
                    views,
                    i as int,
                )[q],
        decreases tables@.len() - i,
    {
        proof {
            assert(views[i as int] == tables@[i as int]@);
        }
        let cells = extract_table_cells(tables[i].as_str());
        proof {
            assert(raw_rows_view(cells@) == table_cells_of(views[i as int]));
        }
        let grid_cells = cells_to_grid(cells);
        proof {
            assert(grid_cells_view(grid_cells@) == spec_grid_cells(
                table_cells_of(views[i as int]),
            ));
        }
        if grid_cells.len() == 0 {
            proof {
                assert(!table_nonempty(views[i as int]));
                assert(spec_parse_tables(views, i as int + 1) =~= spec_parse_tables(
                    views,
                    i as int,
                ));
            }
            i = i + 1;
            continue ;
        }
        proof {
            assert(forall|a: int, b: int|
                0 <= a < grid_cells@.len() && 0 <= b < grid_cells@[a]@.len() ==> (
                #[trigger] grid_cells@[a]@[b]).rowspan <= u32::MAX && grid_cells@[a]@[b].colspan
                    <= u32::MAX) by {
                assert(forall|a: int|
                    0 <= a < grid_cells@.len() ==> #[trigger] grid_cells_view(grid_cells@)[a]
                        == grid_cells@[a]@.map_values(
                        |c: GridCell| (c.text@, c.rowspan as int, c.colspan as int),
                    ));
                assert(forall|a: int, b: int|
                    0 <= a < grid_cells@.len() && 0 <= b < grid_cells@[a]@.len()
                        ==> grid_cells_view(grid_cells@)[a][b] == ((
                    #[trigger] grid_cells@[a]@[b]).text@,
                    grid_cells@[a]@[b].rowspan as int,
                    grid_cells@[a]@[b].colspan as int,
                    ));
            }
        }
        if !check_table_bounds(&grid_cells) {
            proof {
                assert(!table_bounds_ok(views[i as int]));
            }
            return Err(String::from_str("table too large"));
        }
        let mut grid = normalize_table_to_grid(&grid_cells);
        proof {
            assert(rows_view(grid@) == spec_table_grid(views[i as int]));
        }
        if grid.len() == 0 {
            proof {
                assert(!table_nonempty(views[i as int]));
                assert(spec_parse_tables(views, i as int + 1) =~= spec_parse_tables(
                    views,
                    i as int,
                ));
            }
            i = i + 1;
            continue ;
        }
        let ghost gfull = grid@;
        let headers = grid.remove(0);
        proof {
            assert(table_nonempty(views[i as int]));
            assert(headers == gfull[0]);
            assert(grid@ =~= gfull.skip(1));
            assert(headers@.map_values(|s: String| s@) == spec_table_grid(views[i as int])[0]);
            assert(rows_view(grid@) =~= rows_view(gfull).skip(1));
            assert(spec_parse_tables(views, i as int + 1) =~= spec_parse_tables(views, i as int)
                + seq![
                (
                    spec_table_grid(views[i as int])[0],
                    spec_table_grid(views[i as int]).skip(1),
                ),
            ]);
        }
        out.push(TableWithHeaderAndValues { headers, rows: grid });
        i = i + 1;
    }
    if out.len() == 0 {
        proof {
            assert(views.len() == tables@.len());
        }
        return Err(String::from_str("No valid tables found"));
    }
    Ok(out)
}


// ------------------------------------------------------------------
// JSON rendering of a parsed table
// ------------------------------------------------------------------

/// The hexadecimal digit character for `d` (meaningful for 0 ..= 15).
pub open spec fn hex_char(d: int) -> char {
    if d == 0 {
        '0'
    } else if d == 1 {
        '1'
    } else if d == 2 {
        '2'
    } else if d == 3 {
        '3'
    } else if d == 4 {
        '4'
    } else if d == 5 {
        '5'
    } else if d == 6 {
        '6'
    } else if d == 7 {
        '7'
    } else if d == 8 {
        '8'
    } else if d == 9 {
        '9'
    } else if d == 10 {
        'a'
    } else if d == 11 {
        'b'
    } else if d == 12 {
        'c'
    } else if d == 13 {
        'd'
    } else if d == 14 {
        'e'
    } else {
        'f'
    }
}

/// The JSON escape of one character: quotes and backslashes escaped, the
/// common control characters by letter, the rest of the control range as a
/// `\u00..` sequence, anything else as itself.
pub open spec fn json_escape_char(c: char) -> Seq<char> {
    if c == '"' {
        seq!['\\', '"']
    } else if c == '\\' {
        seq!['\\', '\\']
    } else if c == '\n' {
        seq!['\\', 'n']
    } else if c == '\r' {
        seq!['\\', 'r']
    } else if c == '\t' {
        seq!['\\', 't']
    } else if (c as u32) < 0x20 {
        seq!['\\', 'u', '0', '0', hex_char((c as u32 / 16) as int), hex_char((c as u32 % 16) as int)]
    } else {
        seq![c]
    }
}

/// The JSON escape of a whole string body.
pub open spec fn json_escaped(s: Seq<char>) -> Seq<char>
    decreases s.len(),
{
    if s.len() == 0 {
        Seq::empty()
    } else {
        json_escaped(s.drop_last()) + json_escape_char(s.last())
    }
}

/// A JSON string: the escaped body in double quotes.
pub open spec fn json_string(s: Seq<char>) -> Seq<char> {
    seq!['"'] + json_escaped(s) + seq!['"']
}

/// The comma-separated JSON strings of a list.
pub open spec fn json_string_items(elems: Seq<Seq<char>>) -> Seq<char>
    decreases elems.len(),
{
    if elems.len() == 0 {
        Seq::empty()
    } else if elems.len() == 1 {
        json_string(elems[0])
    } else {
        json_string_items(elems.drop_last()) + seq![','] + json_string(elems.last())
    }
}

/// A JSON array of strings.
pub open spec fn json_string_array(elems: Seq<Seq<char>>) -> Seq<char> {
    seq!['['] + json_string_items(elems) + seq![']']
}

/// The comma-separated JSON arrays of a list of rows.
pub open spec fn json_row_items(rows: Seq<Seq<Seq<char>>>) -> Seq<char>
    decreases rows.len(),
{
    if rows.len() == 0 {
        Seq::empty()
    } else if rows.len() == 1 {
        json_string_array(rows[0])
    } else {
        json_row_items(rows.drop_last()) + seq![','] + json_string_array(rows.last())
    }
}

/// The JSON document of one parsed table: its headers and its rows.
pub open spec fn json_table(headers: Seq<Seq<char>>, rows: Seq<Seq<Seq<char>>>) -> Seq<char> {
    "{\"headers\":"@ + json_string_array(headers) + ",\"rows\":["@ + json_row_items(rows)
        + "]}"@
}

/// The hexadecimal digit character for `d`, decided.
fn hex_char_of(d: u32) -> (c: char)
    requires
        d <= 15,
    ensures
        c == hex_char(d as int),
{
    if d == 0 {
        '0'
    } else if d == 1 {
        '1'
    } else if d == 2 {
        '2'
    } else if d == 3 {
        '3'
    } else if d == 4 {
        '4'
    } else if d == 5 {
        '5'
    } else if d == 6 {
        '6'
    } else if d == 7 {
        '7'
    } else if d == 8 {
        '8'
    } else if d == 9 {
        '9'
    } else if d == 10 {
        'a'
    } else if d == 11 {
        'b'
    } else if d == 12 {
        'c'
    } else if d == 13 {
        'd'
    } else if d == 14 {
        'e'
    } else {
        'f'
    }
}

/// Appends the JSON string for `s` (quotes included) to `out`.
fn push_json_string(out: &mut String, s: &str)
    ensures
        final(out)@ == old(out)@ + json_string(s@),
{
    out.push('"');
    let ghost base = out@;
    let len = s.unicode_len();
    let mut i: usize = 0;
    proof {
        assert(s@.take(0) =~= Seq::<char>::empty());
        assert(base + Seq::<char>::empty() =~= base);
    }
    while i < len
        invariant
            i <= len,
            len == s@.len(),
            out@ == base + json_escaped(s@.take(i as int)),
        decreases len - i,
    {
        let c = s.get_char(i);
        proof {
            assert(s@.take(i as int + 1).drop_last() =~= s@.take(i as int));
            assert(s@.take(i as int + 1).last() == s@[i as int]);
        }
        let ghost before = out@;
        if c == '"' {
            out.push('\\');
            out.push('"');
            proof {
                assert(out@ =~= before + json_escape_char(c));
            }
        } else if c == '\\' {
            out.push('\\');
            out.push('\\');
            proof {
                assert(out@ =~= before + json_escape_char(c));
            }
        } else if c == '\n' {
            out.push('\\');
            out.push('n');
            proof {
                assert(out@ =~= before + json_escape_char(c));
            }
        } else if c == '\r' {
            out.push('\\');
            out.push('r');
            proof {
                assert(out@ =~= before + json_escape_char(c));
            }
        } else if c == '\t' {
            out.push('\\');
            out.push('t');
            proof {
                assert(out@ =~= before + json_escape_char(c));
            }
        } else if (c as u32) < 0x20 {
            out.push('\\');
            out.push('u');
            out.push('0');
            out.push('0');
            out.push(hex_char_of((c as u32) / 16));
            out.push(hex_char_of((c as u32) % 16));
            proof {
                assert(out@ =~= before + json_escape_char(c));
            }
        } else {
            out.push(c);
            proof {
                assert(out@ =~= before + json_escape_char(c));
            }
        }
        proof {
            assert(out@ =~= base + json_escaped(s@.take(i as int + 1)));
        }
        i = i + 1;
    }
    proof {
        assert(s@.take(len as int) =~= s@);
    }
    out.push('"');
    proof {
        assert(out@ =~= old(out)@ + json_string(s@));
    }
}

/// Appends the JSON array of the strings of `elems` to `out`.
fn push_json_string_array(out: &mut String, elems: &Vec<String>)
    ensures
        final(out)@ == old(out)@ + json_string_array(
            elems@.map_values(|s: String| s@),
        ),
{
    let ghost views = elems@.map_values(|s: String| s@);
    out.push('[');
    let ghost base = out@;
    let mut i: usize = 0;
    proof {
        assert(views.take(0) =~= Seq::<Seq<char>>::empty());
        assert(base + Seq::<char>::empty() =~= base);
    }
    while i < elems.len()
        invariant
            i <= elems@.len(),
            views == elems@.map_values(|s: String| s@),
            out@ == base + json_string_items(views.take(i as int)),
        decreases elems@.len() - i,
    {
        let ghost before = out@;
        if i > 0 {
            out.push(',');
        }
        push_json_string(out, elems[i].as_str());
        proof {
            assert(views.take(i as int + 1).drop_last() =~= views.take(i as int));
            assert(views.take(i as int + 1).last() == views[i as int]);
            assert(views[i as int] == elems@[i as int]@);
            if i == 0 {
                assert(views.take(1).len() == 1);
                assert(views.take(1)[0] == views[0]);
                assert(out@ =~= base + json_string_items(views.take(i as int + 1)));
            } else {
                assert(out@ =~= base + json_string_items(views.take(i as int + 1)));
            }
        }
        i = i + 1;
    }
    proof {
        assert(views.take(views.len() as int) =~= views);
    }
    out.push(']');
    proof {
        assert(out@ =~= old(out)@ + json_string_array(views));
    }
}

/// Renders one parsed table as a compact JSON document with `headers` and
/// `rows` members.
pub fn table_to_json(t: &TableWithHeaderAndValues) -> (r: String)
    ensures
        r@ == json_table(parsed_table_view(*t).0, parsed_table_view(*t).1),
{
    let ghost rv = rows_view(t.rows@);
    let mut out = String::from_str("{\"headers\":");
    push_json_string_array(&mut out, &t.headers);
    out.append(",\"rows\":[");
    let mut i: usize = 0;
    let ghost base = out@;
    proof {
        assert(rv.take(0) =~= Seq::<Seq<Seq<char>>>::empty());
        assert(base + Seq::<char>::empty() =~= base);
    }
    while i < t.rows.len()
        invariant
            i <= t.rows@.len(),
            rv == rows_view(t.rows@),
            out@ == base + json_row_items(rv.take(i as int)),
        decreases t.rows@.len() - i,
    {
        let ghost before = out@;
        if i > 0 {
            out.push(',');
        }
        push_json_string_array(&mut out, &t.rows[i]);
        proof {
            assert(rv.take(i as int + 1).drop_last() =~= rv.take(i as int));
            assert(rv.take(i as int + 1).last() == rv[i as int]);
            assert(rv[i as int] == t.rows@[i as int]@.map_values(|s: String| s@));
            assert(out@ =~= base + json_row_items(rv.take(i as int + 1)));
        }
        i = i + 1;
    }
    proof {
        assert(rv.take(rv.len() as int) =~= rv);
    }
    out.append("]}");
    proof {
        reveal_strlit("{\"headers\":");
        reveal_strlit(",\"rows\":[");
        reveal_strlit("]}");
        assert(out@ =~= json_table(parsed_table_view(*t).0, parsed_table_view(*t).1));
    }
    out
}


// ------------------------------------------------------------------
// The page-level entry point
// ------------------------------------------------------------------

/// Whether `c` carries the Unicode white-space property.
pub open spec fn is_space_char(c: char) -> bool {
    let u = c as u32;
    ||| (9 <= u && u <= 13)
    ||| u == 32
    ||| u == 0x85
    ||| u == 0xA0
    ||| u == 0x1680
    ||| (0x2000 <= u && u <= 0x200A)
    ||| u == 0x2028
    ||| u == 0x2029
    ||| u == 0x202F
    ||| u == 0x205F
    ||| u == 0x3000
}

/// Whether `s` holds only white space (true for the empty string).
pub open spec fn all_space(s: Seq<char>) -> bool {
    forall|i: int| 0 <= i < s.len() ==> is_space_char(#[trigger] s[i])
}

/// Decides [`all_space`].
fn str_is_blank(s: &str) -> (r: bool)
    ensures
        r == all_space(s@),
{
    let len = s.unicode_len();
    let mut i: usize = 0;
    while i < len
        invariant
            i <= len,
            len == s@.len(),
            forall|j: int| 0 <= j < i ==> is_space_char(#[trigger] s@[j]),
        decreases len - i,
    {
        let u = s.get_char(i) as u32;
        let space = (9 <= u && u <= 13) || u == 32 || u == 0x85 || u == 0xA0 || u == 0x1680 || (
        0x2000 <= u && u <= 0x200A) || u == 0x2028 || u == 0x2029 || u == 0x202F || u == 0x205F
            || u == 0x3000;
        if !space {
            assert(!is_space_char(s@[i as int]));
            return false;
        }
        assert(is_space_char(s@[i as int]));
        i = i + 1;
    }
    true
}

/// The number of line feeds in `s`.
pub open spec fn newline_count(s: Seq<char>) -> int
    decreases s.len(),
{
    if s.len() == 0 {
        0
    } else {
        newline_count(s.drop_last()) + if s.last() == '\n' {
            1int
        } else {
            0int
        }
    }
}

/// The number of lines of `s`: line feeds plus an unterminated last line.
pub open spec fn spec_line_count(s: Seq<char>) -> int {
    newline_count(s) + if s.len() > 0 && s.last() != '\n' {
        1int
    } else {
        0int
    }
}

/// Counts the lines of `s`, matching [`spec_line_count`].
fn count_lines(s: &str) -> (r: usize)
    ensures
        r as int == spec_line_count(s@),
{
    let len = s.unicode_len();
    let mut n: usize = 0;
    let mut i: usize = 0;
    proof {
        assert(s@.take(0) =~= Seq::<char>::empty());
    }
    while i < len
        invariant
            i <= len,
            len == s@.len(),
            n as int == newline_count(s@.take(i as int)),
            n <= i,
        decreases len - i,
    {
        proof {
            assert(s@.take(i as int + 1).drop_last() =~= s@.take(i as int));
            assert(s@.take(i as int + 1).last() == s@[i as int]);
        }
        if s.get_char(i) == '\n' {
            n = n + 1;
        }
        i = i + 1;
    }
    proof {
        assert(s@.take(len as int) =~= s@);
    }
    if len > 0 && s.get_char(len - 1) != '\n' {
        proof {
            assert(s@.last() == s@[len - 1]);
            assert(newline_count(s@) == newline_count(s@.drop_last()));
            lemma_newline_count_le(s@.drop_last());
        }
        n + 1
    } else {
        n
    }
}

proof fn lemma_newline_count_le(s: Seq<char>)
    ensures
        0 <= newline_count(s) <= s.len(),
    decreases s.len(),
{
    if s.len() > 0 {
        lemma_newline_count_le(s.drop_last());
    }
}

/// The summary line of a parse: table, line and character counts.
pub open spec fn spec_summary(tables: int, lines: int, chars: int) -> Seq<char> {
    "パース完了: "@ + dec_str(tables as nat) + " テーブル, "@ + dec_str(lines as nat)
        + " 行, "@ + dec_str(chars as nat) + " 文字"@
}

/// Parses the fixed tables of a page: rejects blank input and pages without
/// such a table, normalizes each table's merged cells into a rectangular
/// grid, and reports the parsed tables as JSON documents together with input
/// counts and a summary line.
pub fn parse_table_data(input: &str) -> (r: Result<ParsedTableData, String>)
    ensures
        all_space(input@) ==> r is Err && r->Err_0@ == "入力データが空です"@,
        !all_space(input@) && fixed_tables_of(input@).len() == 0 ==> r is Err && r->Err_0@
            == "table not found"@,
        ({
            let tables = fixed_tables_of(input@);
            let parsed = spec_parse_tables(tables, tables.len() as int);
            (!all_space(input@) && tables.len() > 0 && (forall|i: int|
                0 <= i < tables.len() ==> table_bounds_ok(#[trigger] tables[i]))) ==> {
                &&& (r is Ok <==> parsed.len() > 0)
                &&& (r matches Ok(out) ==> {
                    &&& out.line_count as int == spec_line_count(input@)
                    &&& out.char_count == input@.len()
                    &&& out.summary@ == spec_summary(
                        parsed.len() as int,
                        spec_line_count(input@),
                        input@.len() as int,
                    )
                    &&& out.data@.len() == parsed.len()
                    &&& (forall|i: int|
                        0 <= i < parsed.len() ==> (#[trigger] out.data@[i])@ == json_table(
                            parsed[i].0,
                            parsed[i].1,
                        ))
                })
            }
        }),
{
    if str_is_blank(input) {
        return Err(String::from_str("入力データが空です"));
    }
    let tables = select_fixed_tables(input);
    proof {
        assert(tables@.map_values(|s: String| s@).len() == fixed_tables_of(input@).len());
    }
    if tables.len() == 0 {
        return Err(String::from_str("table not found"));
    }
    let parsed = match parse_tables_header_and_values(&tables) {
        Ok(p) => p,
        Err(e) => {
            return Err(e);
        },
    };
    let line_count = count_lines(input);
    let char_count = input.unicode_len();
    let mut data: Vec<String> = Vec::new();
    let ghost pviews = spec_parse_tables(
        fixed_tables_of(input@),
        fixed_tables_of(input@).len() as int,
    );
    let mut i: usize = 0;
    while i < parsed.len()
        invariant
            i <= parsed@.len(),
            parsed@.len() == pviews.len(),
            forall|q: int|
                0 <= q < parsed@.len() ==> parsed_table_view(#[trigger] parsed@[q]) == pviews[q],
            data@.len() == i,
            forall|q: int|
                0 <= q < i ==> (#[trigger] data@[q])@ == json_table(pviews[q].0, pviews[q].1),
        decreases parsed@.len() - i,
    {
        let j = table_to_json(&parsed[i]);
        data.push(j);
        i = i + 1;
    }
    let mut summary = String::from_str("パース完了: ");
    summary.append(usize_to_string(parsed.len()).as_str());
    summary.append(" テーブル, ");
    summary.append(usize_to_string(line_count).as_str());
    summary.append(" 行, ");
    summary.append(usize_to_string(char_count).as_str());
    summary.append(" 文字");
    proof {
        reveal_strlit("パース完了: ");
        reveal_strlit(" テーブル, ");
        reveal_strlit(" 行, ");
        reveal_strlit(" 文字");
        assert(summary@ =~= spec_summary(
            pviews.len() as int,
            spec_line_count(input@),
            input@.len() as int,
        ));
    }
    Ok(ParsedTableData { line_count, char_count, summary, data })
}

} // verus!
