//! The tables and lines in which scan results are shown.
use vstd::prelude::*;
use vstd::string::StringSliceAdditionalSpecFns;
use crate::result::WhatWebResult;
use crate::text::{decimal, decimal_string, join_seq, join_strings, views};

verus! {

broadcast use vstd::string::group_string_axioms;

/// Whether an HTTP status code counts as success when shown: codes outside
/// 100..=999 are taken as 200, and 200..=299 is success.
pub open spec fn status_success_spec(code: u16) -> bool {
    if 100 <= code && code < 1000 {
        200 <= code && code < 300
    } else {
        true
    }
}

/// Whether the status code of a result is shown as success.
pub fn status_is_success(code: u16) -> (res: bool)
    ensures
        res == status_success_spec(code),
{
    let effective: u16 = if code < 100 || code >= 1000 {
        200
    } else {
        code
    };
    200 <= effective && effective < 300
}

/// The text that textwrap's `fill` makes of `text` at `width` columns.
pub uninterp spec fn wrapped_text(text: Seq<char>, width: usize) -> Seq<char>;

/// `s` without trailing spaces.
pub open spec fn trim_end_spaces(s: Seq<char>) -> Seq<char>
    decreases s.len(),
{
    if s.len() > 0 && s.last() == ' ' {
        trim_end_spaces(s.drop_last())
    } else {
        s
    }
}

/// Wraps text to lines of at most `width` columns with textwrap's `fill`.
/// The result is named [`wrapped_text`]; a text of fewer than `width` bytes
/// without line feeds comes back without its trailing spaces, as `fill`
/// returns it on that path. How longer text is broken is left unsaid.
#[verifier::external_body]
fn fill_text(text: &str, width: usize) -> (res: String)
    ensures
        res@ == wrapped_text(text@, width),
        text.spec_bytes().len() < width && !text@.contains('\n') ==> res@ == trim_end_spaces(
            text@,
        ),
{
    textwrap::fill(text, width)
}

/// The column width of titles in the result tables.
pub const TITLE_WIDTH: usize = 40;

/// How a table cell is coloured.
#[derive(Debug, Clone, Copy, PartialEq, Eq)]
pub enum CellColor {
    /// No colour.
    Plain,
    /// Green.
    Green,
    /// Red.
    Red,
}

/// One cell of a result table.
#[derive(Debug, Clone, PartialEq, Eq)]
pub struct TableCell {
    /// The text.
    pub text: String,
    /// The colour.
    pub color: CellColor,
}

/// The view of a cell: its text and colour.
pub open spec fn cell_view(c: TableCell) -> (Seq<char>, CellColor) {
    (c.text@, c.color)
}

/// The views of a row of cells.
pub open spec fn row_view(r: Seq<TableCell>) -> Seq<(Seq<char>, CellColor)> {
    r.map_values(|c: TableCell| cell_view(c))
}

/// The views of the rows of a table.
pub open spec fn rows_view(t: Seq<Vec<TableCell>>) -> Seq<Seq<(Seq<char>, CellColor)>> {
    t.map_values(|r: Vec<TableCell>| row_view(r@))
}

/// The column titles of the result tables; the plugins column is there when
/// template scans are used.
pub open spec fn headers_spec(use_nuclei: bool) -> Seq<Seq<char>> {
    seq!["url"@, "name"@, "length"@, "status_code"@, "title"@, "priority"@] + if use_nuclei {
        seq!["plugins"@]
    } else {
        Seq::empty()
    }
}

/// The row of one result: its address; its names, one per line, in green;
/// its length; its status code, green where it counts as success and red
/// otherwise; its title wrapped at [`TITLE_WIDTH`] columns; its priority; and
/// where template scans are used its plugins, one per line, in red.
pub open spec fn row_spec(r: WhatWebResult, use_nuclei: bool) -> Seq<(Seq<char>, CellColor)> {
    seq![
        (r.url@, CellColor::Plain),
        (join_seq(views(r.name@), "\n"@), CellColor::Green),
        (decimal(r.length as nat), CellColor::Plain),
        (
            decimal(r.status_code as nat),
            if status_success_spec(r.status_code) {
                CellColor::Green
            } else {
                CellColor::Red
            },
        ),
        (wrapped_text(r.title@, TITLE_WIDTH), CellColor::Plain),
        (decimal(r.priority as nat), CellColor::Plain),
    ] + if use_nuclei {
        seq![(join_seq(views(r.plugins@), "\n"@), CellColor::Red)]
    } else {
        Seq::empty()
    }
}

/// Whether a result has a row in the table of important results: with
/// `filter` set, only results with a recognised name do.
pub open spec fn is_important(r: WhatWebResult, filter: bool) -> bool {
    !(filter && r.name@.len() == 0)
}

/// The rows of `results` in order: of every result, or, with
/// `only_important`, of the important ones.
pub open spec fn rows_where(
    results: Seq<WhatWebResult>,
    use_nuclei: bool,
    filter: bool,
    only_important: bool,
) -> Seq<Seq<(Seq<char>, CellColor)>>
    decreases results.len(),
{
    if results.len() == 0 {
        Seq::empty()
    } else {
        let r = rows_where(results.drop_last(), use_nuclei, filter, only_important);
        if only_important && !is_important(results.last(), filter) {
            r
        } else {
            r.push(row_spec(results.last(), use_nuclei))
        }
    }
}

/// The column titles of the result tables.
pub fn table_headers(use_nuclei: bool) -> (res: Vec<String>)
    ensures
        views(res@) == headers_spec(use_nuclei),
{
    let mut h: Vec<String> = Vec::new();
    h.push("url".to_string());
    h.push("name".to_string());
    h.push("length".to_string());
    h.push("status_code".to_string());
    h.push("title".to_string());
    h.push("priority".to_string());
    if use_nuclei {
        h.push("plugins".to_string());
    }
    assert(views(h@) == headers_spec(use_nuclei));
    h
}

/// The row of one result, as [`row_spec`] states.
pub fn result_row(r: &WhatWebResult, use_nuclei: bool) -> (res: Vec<TableCell>)
    ensures
        row_view(res@) == row_spec(*r, use_nuclei),
{
    let status_color = if status_is_success(r.status_code) {
        CellColor::Green
    } else {
        CellColor::Red
    };
    let mut row: Vec<TableCell> = Vec::new();
    row.push(TableCell { text: r.url.clone(), color: CellColor::Plain });
    row.push(TableCell { text: join_strings(&r.name, "\n"), color: CellColor::Green });
    row.push(TableCell { text: decimal_string(r.length as u64), color: CellColor::Plain });
    row.push(TableCell { text: decimal_string(r.status_code as u64), color: status_color });
    row.push(TableCell { text: fill_text(r.title.as_str(), TITLE_WIDTH), color: CellColor::Plain });
    row.push(TableCell { text: decimal_string(r.priority as u64), color: CellColor::Plain });
    if use_nuclei {
        row.push(TableCell { text: join_strings(&r.plugins, "\n"), color: CellColor::Red });
    }
    assert(row_view(row@) == row_spec(*r, use_nuclei));
    row
}

/// The rows of a result table: of every result, or, with `only_important`,
/// of the important ones (see [`is_important`]), in order.
pub fn result_rows(
    results: &Vec<WhatWebResult>,
    use_nuclei: bool,
    filter: bool,
    only_important: bool,
) -> (res: Vec<Vec<TableCell>>)
    ensures
        rows_view(res@) == rows_where(results@, use_nuclei, filter, only_important),
{
    let mut rows: Vec<Vec<TableCell>> = Vec::new();
    let mut i: usize = 0;
    while i < results.len()
        invariant
            i <= results.len(),
            rows_view(rows@) == rows_where(results@.take(i as int), use_nuclei, filter, only_important),
        decreases results.len() - i,
    {
        let r = &results[i];
        assert(results@.take(i + 1).drop_last() == results@.take(i as int));
        if !(only_important && filter && r.name.len() == 0) {
            let row = result_row(r, use_nuclei);
            let ghost before = rows@;
            rows.push(row);
            assert(rows_view(rows@) == rows_view(before).push(row_view(row@)));
        }
        i = i + 1;
    }
    assert(results@.take(results.len() as int) == results@);
    rows
}

/// What a finished scan shows and saves: the column titles, the rows of every
/// result (for saving), the rows of the important results, and whether those
/// are printed (when there are any and output is not silenced).
#[derive(Debug, Clone, PartialEq, Eq)]
pub struct ResultReport {
    /// The column titles.
    pub headers: Vec<String>,
    /// The rows of every result.
    pub all_rows: Vec<Vec<TableCell>>,
    /// The rows of the important results.
    pub important_rows: Vec<Vec<TableCell>>,
    /// Whether the important results are printed.
    pub show_important: bool,
}

/// Builds the report of a finished scan, as [`ResultReport`] describes.
pub fn result_report(
    results: &Vec<WhatWebResult>,
    use_nuclei: bool,
    filter: bool,
    silent: bool,
) -> (res: ResultReport)
    ensures
        views(res.headers@) == headers_spec(use_nuclei),
        rows_view(res.all_rows@) == rows_where(results@, use_nuclei, filter, false),
        rows_view(res.important_rows@) == rows_where(results@, use_nuclei, filter, true),
        res.show_important == (res.important_rows@.len() > 0 && !silent),
{
    let headers = table_headers(use_nuclei);
    let all_rows = result_rows(results, use_nuclei, filter, false);
    let important_rows = result_rows(results, use_nuclei, filter, true);
    let show_important = important_rows.len() > 0 && !silent;
    ResultReport { headers, all_rows, important_rows, show_important }
}

/// The status code shown for a status code: codes outside 100..=999 are
/// shown as 200.
pub open spec fn shown_status_spec(code: u16) -> u16 {
    if 100 <= code && code < 1000 {
        code
    } else {
        200
    }
}

/// How the line of a finished target is shown: where some name was
/// recognised, the names and the status stand out (the status green on
/// success, red otherwise) and the status is shown as
/// [`shown_status_spec`] gives it; otherwise the raw status code is shown,
/// uncoloured.
#[derive(Debug, Clone, Copy, PartialEq, Eq)]
pub struct LineStyle {
    /// Whether names and status are coloured.
    pub highlighted: bool,
    /// Whether the status counts as success.
    pub status_success: bool,
    /// The status code shown on the line.
    pub shown_status: u16,
}

/// Whether a result has at least one recognised name.
pub open spec fn has_name(r: WhatWebResult) -> bool {
    r.name@.len() > 0
}

/// The rows of a table: every result has its row, in order; the table of
/// important results holds, with `filter`, exactly the rows of the results
/// with a recognised name (whatever their status), in order, and without
/// `filter` every row.
pub proof fn law_table_rows(results: Seq<WhatWebResult>, use_nuclei: bool, filter: bool)
    ensures
        rows_where(results, use_nuclei, filter, false) == results.map_values(
            |r: WhatWebResult| row_spec(r, use_nuclei),
        ),
        rows_where(results, use_nuclei, false, true) == results.map_values(
            |r: WhatWebResult| row_spec(r, use_nuclei),
        ),
        rows_where(results, use_nuclei, true, true) == results.filter(
            |r: WhatWebResult| has_name(r),
        ).map_values(|r: WhatWebResult| row_spec(r, use_nuclei)),
        forall|i: int|
            0 <= i < results.len() && has_name(#[trigger] results[i]) ==> rows_where(
                results,
                use_nuclei,
                true,
                true,
            ).contains(row_spec(results[i], use_nuclei)),
    decreases results.len(),
{
    reveal_with_fuel(Seq::filter, 1);
    let f = |r: WhatWebResult| row_spec(r, use_nuclei);
    let pred = |r: WhatWebResult| has_name(r);
    if results.len() > 0 {
        let prev = results.drop_last();
        law_table_rows(prev, use_nuclei, filter);
        assert(results.map_values(f) == prev.map_values(f).push(f(results.last())));
        assert(results.filter(pred) == if pred(results.last()) {
            prev.filter(pred).push(results.last())
        } else {
            prev.filter(pred)
        });
        if pred(results.last()) {
            assert(prev.filter(pred).push(results.last()).map_values(f) == prev.filter(
                pred,
            ).map_values(f).push(f(results.last())));
        }
    } else {
        assert(results.filter(pred) == results);
    }
    assert forall|i: int|
        0 <= i < results.len() && has_name(#[trigger] results[i]) implies rows_where(
        results,
        use_nuclei,
        true,
        true,
    ).contains(row_spec(results[i], use_nuclei)) by {
        results.lemma_filter_contains(pred, i);
        let fl = results.filter(pred);
        let k = choose|k: int| 0 <= k < fl.len() && fl[k] == results[i];
        assert(fl.map_values(f)[k] == row_spec(results[i], use_nuclei));
    }
}

/// The style of the line of a finished target.
pub fn what_web_line_style(r: &WhatWebResult) -> (res: LineStyle)
    ensures
        res.highlighted == (r.name@.len() > 0),
        res.status_success == status_success_spec(r.status_code),
        r.name@.len() > 0 ==> (res.status_success <==> 200 <= res.shown_status < 300),
        res.shown_status == if r.name@.len() > 0 {
            shown_status_spec(r.status_code)
        } else {
            r.status_code
        },
{
    let highlighted = r.name.len() > 0;
    let code = r.status_code;
    let shown_status = if highlighted && (code < 100 || code >= 1000) {
        200
    } else {
        code
    };
    LineStyle { highlighted, status_success: status_is_success(code), shown_status }
}

} // verus!
