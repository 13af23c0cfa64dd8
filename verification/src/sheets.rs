//! Spreadsheet (XLSX) export layout and the cells of existing workbooks.

use vstd::prelude::*;
use crate::csvfile::table_view;
use crate::export::{
    build_header, build_rows, collect_columns, entry_columns, entry_rows, header_cells,
    WorkEntry,
};
use crate::text::{contains_string, owned, push_signed_decimal, signed_decimal, str_eq, strs};

verus! {

/// A worksheet cell as a workbook reader hands it over, one variant for
/// each kind of cell. What only the reader can render (a float, a date, an
/// error value) comes as its text: `display` as the reader displays it, and
/// for a float also `one_decimal`, with one decimal place.
pub enum SheetCell {
    Int(i64),
    Float { display: String, one_decimal: String },
    Text(String),
    Bool(bool),
    DateTime { display: String },
    DateTimeIso(String),
    DurationIso(String),
    Error { display: String },
    Empty,
}

/// A cell as category import shows it: text as it is, an empty cell as the
/// empty string, an integer in decimal, a boolean as `true` or `false`, any
/// other cell as the reader displays it.
pub open spec fn import_cell_text(c: SheetCell) -> Seq<char> {
    match c {
        SheetCell::Int(i) => signed_decimal(i as int),
        SheetCell::Float { display, .. } => display@,
        SheetCell::Text(s) => s@,
        SheetCell::Bool(b) => if b { "true"@ } else { "false"@ },
        SheetCell::DateTime { display } => display@,
        SheetCell::DateTimeIso(s) => s@,
        SheetCell::DurationIso(s) => s@,
        SheetCell::Error { display } => display@,
        SheetCell::Empty => Seq::<char>::empty(),
    }
}

/// A cell as a monthly export keeps it: text as it is, a float with one
/// decimal place, an integer in decimal, any other cell as the empty string.
pub open spec fn monthly_cell_text(c: SheetCell) -> Seq<char> {
    match c {
        SheetCell::Text(s) => s@,
        SheetCell::Float { one_decimal, .. } => one_decimal@,
        SheetCell::Int(i) => signed_decimal(i as int),
        _ => Seq::<char>::empty(),
    }
}

/// Each cell of each row shown as category import shows it.
pub open spec fn import_text_rows(rows: Seq<Vec<SheetCell>>) -> Seq<Seq<Seq<char>>> {
    rows.map_values(|r: Vec<SheetCell>| r@.map_values(|c: SheetCell| import_cell_text(c)))
}

/// Each cell of each row kept as a monthly export keeps it.
pub open spec fn monthly_text_rows(rows: Seq<Vec<SheetCell>>) -> Seq<Seq<Seq<char>>> {
    rows.map_values(|r: Vec<SheetCell>| r@.map_values(|c: SheetCell| monthly_cell_text(c)))
}

/// A cell as category import shows it.
fn import_cell(c: &SheetCell) -> (t: String)
    ensures
        t@ == import_cell_text(*c),
{
    match c {
        SheetCell::Int(i) => {
            let mut t = String::new();
            push_signed_decimal(&mut t, *i);
            assert(t@ =~= signed_decimal(*i as int));
            t
        },
        SheetCell::Float { display, .. } => display.clone(),
        SheetCell::Text(s) => s.clone(),
        SheetCell::Bool(b) => if *b { owned("true") } else { owned("false") },
        SheetCell::DateTime { display } => display.clone(),
        SheetCell::DateTimeIso(s) => s.clone(),
        SheetCell::DurationIso(s) => s.clone(),
        SheetCell::Error { display } => display.clone(),
        SheetCell::Empty => String::new(),
    }
}

/// A cell as a monthly export keeps it.
fn monthly_cell(c: &SheetCell) -> (t: String)
    ensures
        t@ == monthly_cell_text(*c),
{
    match c {
        SheetCell::Text(s) => s.clone(),
        SheetCell::Float { one_decimal, .. } => one_decimal.clone(),
        SheetCell::Int(i) => {
            let mut t = String::new();
            push_signed_decimal(&mut t, *i);
            assert(t@ =~= signed_decimal(*i as int));
            t
        },
        _ => String::new(),
    }
}

/// The cells of a worksheet as text, shown as category import shows them
/// (`monthly` false) or kept as a monthly export keeps them (`monthly` true).
fn sheet_text(rows: &Vec<Vec<SheetCell>>, monthly: bool) -> (t: Vec<Vec<String>>)
    ensures
        table_view(t@) == if monthly { monthly_text_rows(rows@) } else { import_text_rows(rows@) },
{
    let ghost want = if monthly { monthly_text_rows(rows@) } else { import_text_rows(rows@) };
    let mut t: Vec<Vec<String>> = Vec::new();
    let mut i: usize = 0;
    while i < rows.len()
        invariant
            i <= rows.len(),
            want == (if monthly { monthly_text_rows(rows@) } else { import_text_rows(rows@) }),
            table_view(t@) == want.take(i as int),
        decreases rows.len() - i,
    {
        let row = &rows[i];
        let ghost want_row = want[i as int];
        let mut out: Vec<String> = Vec::new();
        let mut j: usize = 0;
        while j < row.len()
            invariant
                j <= row.len(),
                row@ == rows@[i as int]@,
                i < rows.len(),
                want == (if monthly { monthly_text_rows(rows@) } else { import_text_rows(rows@) }),
                want_row == want[i as int],
                strs(out@) == want_row.take(j as int),
            decreases row.len() - j,
        {
            let c = if monthly { monthly_cell(&row[j]) } else { import_cell(&row[j]) };
            let ghost before = strs(out@);
            out.push(c);
            j += 1;
            assert(strs(out@) =~= before.push(want_row[j - 1]));
            assert(want_row.take(j as int) =~= want_row.take(j - 1).push(want_row[j - 1]));
        }
        assert(want_row.take(row.len() as int) =~= want_row);
        let ghost before = table_view(t@);
        t.push(out);
        i += 1;
        assert(table_view(t@) =~= before.push(want_row));
        assert(want.take(i as int) =~= want.take(i - 1).push(want_row));
    }
    assert(want.take(rows.len() as int) =~= want);
    t
}

/// The cells of a worksheet as category import shows them.
pub fn import_sheet_text(rows: &Vec<Vec<SheetCell>>) -> (t: Vec<Vec<String>>)
    ensures
        table_view(t@) == import_text_rows(rows@),
{
    sheet_text(rows, false)
}

/// The layout of an exported worksheet: the header row, rows carried over
/// from an existing workbook, then one row per entry. In an entry row the
/// last cell holds the hours, which the writer stores as a number.
pub struct SheetLayout {
    pub header: Vec<String>,
    pub kept_rows: Vec<Vec<String>>,
    pub entry_rows: Vec<Vec<String>>,
}

/// The layout of a workday XLSX export.
pub fn workday_sheet(entries: &[WorkEntry], date: &str, padding_columns: u32) -> (s: SheetLayout)
    ensures
        strs(s.header@) == header_cells(entry_columns(entries@), padding_columns as nat),
        s.kept_rows@.len() == 0,
        table_view(s.entry_rows@) == entry_rows(entries@, entry_columns(entries@), date@, padding_columns as nat),
{
    let cols = collect_columns(entries);
    let header = build_header(&cols, padding_columns);
    let rows = build_rows(entries, &cols, date, padding_columns);
    SheetLayout { header, kept_rows: Vec::new(), entry_rows: rows }
}

/// The columns kept from the first row of an existing monthly workbook,
/// after its first cell: all but `Hours`.
pub open spec fn kept_xlsx_columns(h: Seq<Seq<char>>) -> Seq<Seq<char>>
    decreases h.len(),
{
    if h.len() == 0 {
        Seq::<Seq<char>>::empty()
    } else {
        let r = kept_xlsx_columns(h.drop_last());
        if h.last() != "Hours"@ {
            r.push(h.last())
        } else {
            r
        }
    }
}

/// The columns of an existing monthly workbook whose rows are `rows`.
pub open spec fn existing_xlsx_columns(rows: Seq<Seq<Seq<char>>>) -> Seq<Seq<char>> {
    if rows.len() == 0 || rows[0].len() == 0 {
        Seq::<Seq<char>>::empty()
    } else {
        kept_xlsx_columns(rows[0].drop_first())
    }
}

/// `existing` followed by each column of `added` that it does not hold yet.
pub open spec fn merged_columns(existing: Seq<Seq<char>>, added: Seq<Seq<char>>) -> Seq<Seq<char>>
    decreases added.len(),
{
    if added.len() == 0 {
        existing
    } else {
        let m = merged_columns(existing, added.drop_last());
        if m.contains(added.last()) {
            m
        } else {
            m.push(added.last())
        }
    }
}

/// `row`, cut to at most `n` cells.
pub open spec fn truncated(row: Seq<Seq<char>>, n: int) -> Seq<Seq<char>> {
    if row.len() <= n {
        row
    } else {
        row.take(n)
    }
}

/// The data rows of an existing monthly workbook (all rows after the first),
/// each cut to the width of the new header.
pub open spec fn kept_rows(rows: Seq<Seq<Seq<char>>>, width: int) -> Seq<Seq<Seq<char>>> {
    if rows.len() == 0 {
        Seq::<Seq<Seq<char>>>::empty()
    } else {
        rows.drop_first().map_values(|r: Seq<Seq<char>>| truncated(r, width))
    }
}

/// The columns of the first row of an existing workbook, after its first
/// cell, except `Hours`.
fn xlsx_columns_from_rows(rows: &Vec<Vec<String>>) -> (cols: Vec<String>)
    ensures
        strs(cols@) == existing_xlsx_columns(table_view(rows@)),
{
    let mut cols: Vec<String> = Vec::new();
    if rows.len() == 0 || rows[0].len() == 0 {
        return cols;
    }
    let first = &rows[0];
    let ghost h = strs(first@).drop_first();
    let mut i: usize = 1;
    assert(h.take(0) =~= Seq::<Seq<char>>::empty());
    while i < first.len()
        invariant
            1 <= i <= first.len(),
            h == strs(first@).drop_first(),
            strs(cols@) == kept_xlsx_columns(h.take(i - 1)),
        decreases first.len() - i,
    {
        let c = &first[i];
        assert(h.take(i as int).drop_last() =~= h.take(i - 1));
        assert(h.take(i as int).last() == c@);
        if !str_eq(c.as_str(), "Hours") {
            let ghost before = strs(cols@);
            cols.push(c.clone());
            assert(strs(cols@) =~= before.push(c@));
        }
        i += 1;
    }
    assert(h.take(first.len() - 1) =~= h);
    cols
}

/// The existing columns followed by the new ones they lack.
pub fn merge_columns(existing: Vec<String>, added: &Vec<String>) -> (merged: Vec<String>)
    ensures
        strs(merged@) == merged_columns(strs(existing@), strs(added@)),
{
    let mut merged = existing;
    let ghost e = strs(merged@);
    let mut i: usize = 0;
    assert(strs(added@).take(0) =~= Seq::<Seq<char>>::empty());
    while i < added.len()
        invariant
            i <= added.len(),
            strs(merged@) == merged_columns(e, strs(added@).take(i as int)),
        decreases added.len() - i,
    {
        let c = &added[i];
        assert(strs(added@).take(i + 1).drop_last() =~= strs(added@).take(i as int));
        assert(strs(added@).take(i + 1).last() == c@);
        if !contains_string(&merged, c) {
            let ghost before = strs(merged@);
            merged.push(c.clone());
            assert(strs(merged@) =~= before.push(c@));
        }
        i += 1;
    }
    assert(strs(added@).take(added.len() as int) =~= strs(added@));
    merged
}

/// The first `n` cells of `row`, or all of them when it has fewer.
fn truncate_row(row: &Vec<String>, n: usize) -> (r: Vec<String>)
    ensures
        strs(r@) == truncated(strs(row@), n as int),
{
    let mut r: Vec<String> = Vec::new();
    let mut i: usize = 0;
    while i < row.len() && i < n
        invariant
            i <= row.len(),
            i <= n,
            strs(r@) == strs(row@).take(i as int),
        decreases row.len() - i,
    {
        let ghost before = strs(r@);
        r.push(row[i].clone());
        i += 1;
        assert(strs(r@) =~= before.push(row@[i - 1]@));
        assert(strs(r@) =~= strs(row@).take(i as int));
    }
    if i == row.len() {
        assert(strs(row@).take(row.len() as int) =~= strs(row@));
    }
    r
}

/// The layout of a monthly XLSX export. Without an existing workbook it is
/// the workday layout. With one (`existing` holds the cells of its first
/// worksheet) the columns are those of its first row, after the first cell
/// and except `Hours`, followed by the entries' columns it lacks; its other
/// rows are carried over, cut to the new header's width; the entries follow.
pub fn monthly_sheet(
    existing: Option<Vec<Vec<String>>>,
    entries: &[WorkEntry],
    date: &str,
    padding_columns: u32,
) -> (s: SheetLayout)
    ensures
        ({
            let cols = match existing {
                None => entry_columns(entries@),
                Some(rows) => merged_columns(
                    existing_xlsx_columns(table_view(rows@)),
                    entry_columns(entries@),
                ),
            };
            &&& strs(s.header@) == header_cells(cols, padding_columns as nat)
            &&& table_view(s.entry_rows@) == entry_rows(entries@, cols, date@, padding_columns as nat)
            &&& table_view(s.kept_rows@) == match existing {
                None => Seq::<Seq<Seq<char>>>::empty(),
                Some(rows) => kept_rows(table_view(rows@), cols.len() + padding_columns + 2),
            }
        }),
{
    match existing {
        None => workday_sheet(entries, date, padding_columns),
        Some(rows) => {
            let existing_cols = xlsx_columns_from_rows(&rows);
            let new_cols = collect_columns(entries);
            let merged = merge_columns(existing_cols, &new_cols);
            let header = build_header(&merged, padding_columns);
            let width = merged.len().saturating_add(2).saturating_add(padding_columns as usize);
            let mut kept: Vec<Vec<String>> = Vec::new();
            let ghost full = merged.len() + padding_columns + 2;
            let ghost tv = table_view(rows@);
            if rows.len() > 0 {
                let mut i: usize = 1;
                while i < rows.len()
                    invariant
                        1 <= i <= rows.len(),
                        tv == table_view(rows@),
                        width == (if full <= usize::MAX { full } else { usize::MAX as int }),
                        table_view(kept@) == tv.drop_first().take(i - 1).map_values(
                            |r: Seq<Seq<char>>| truncated(r, full),
                        ),
                    decreases rows.len() - i,
                {
                    let t = truncate_row(&rows[i], width);
                    let l = rows[i].len();
                    assert(tv[i as int] == strs(rows@[i as int]@));
                    assert(strs(rows@[i as int]@).len() == l);
                    assert(truncated(strs(rows@[i as int]@), width as int) == truncated(tv[i as int], full));
                    let ghost before = table_view(kept@);
                    kept.push(t);
                    i += 1;
                    assert(table_view(kept@) =~= before.push(truncated(tv[i - 1], full)));
                    assert(tv.drop_first().take(i - 1).map_values(|r: Seq<Seq<char>>| truncated(r, full))
                        =~= tv.drop_first().take(i - 2).map_values(|r: Seq<Seq<char>>| truncated(r, full)).push(
                        truncated(tv[i - 1], full),
                    ));
                }
                assert(tv.drop_first().take(rows.len() - 1) =~= tv.drop_first());
            } else {
                assert(table_view(kept@) =~= Seq::<Seq<Seq<char>>>::empty());
            }
            let entry_rows = build_rows(entries, &merged, date, padding_columns);
            SheetLayout { header, kept_rows: kept, entry_rows }
        },
    }
}

/// The cells of the first worksheet of an existing monthly workbook, kept
/// as a monthly export keeps them (`sheet` holds that worksheet's rows;
/// `None` means the workbook has no worksheet, which is refused).
pub fn read_monthly_workbook(sheet: Option<Vec<Vec<SheetCell>>>) -> (r: Result<Vec<Vec<String>>, String>)
    ensures
        match sheet {
            Some(rows) => r matches Ok(t) && table_view(t@) == monthly_text_rows(rows@),
            None => r matches Err(e) && e@ == "No worksheets in existing monthly file"@,
        },
{
    match sheet {
        Some(rows) => Ok(sheet_text(&rows, true)),
        None => Err(crate::text::owned("No worksheets in existing monthly file")),
    }
}

/// Merging keeps the existing columns first and in place, adds every new
/// column, and adds nothing else.
pub proof fn law_merge_keeps_existing_and_adds_new(existing: Seq<Seq<char>>, added: Seq<Seq<char>>)
    ensures
        merged_columns(existing, added).len() >= existing.len(),
        merged_columns(existing, added).take(existing.len() as int) == existing,
        forall|c: Seq<char>| added.contains(c) ==> merged_columns(existing, added).contains(c),
        forall|c: Seq<char>|
            merged_columns(existing, added).contains(c) ==> existing.contains(c) || added.contains(c),
    decreases added.len(),
{
    if added.len() == 0 {
        assert(existing.take(existing.len() as int) =~= existing);
    } else {
        let a = added.drop_last();
        law_merge_keeps_existing_and_adds_new(existing, a);
        let m = merged_columns(existing, a);
        assert(added =~= a.push(added.last()));
        if !m.contains(added.last()) {
            assert(m.push(added.last()).take(existing.len() as int) =~= m.take(existing.len() as int));
            assert(m.push(added.last())[m.len() as int] == added.last());
        }
        let mm = merged_columns(existing, added);
        assert forall|c: Seq<char>| added.contains(c) implies mm.contains(c) by {
            if c != added.last() {
                let k = choose|k: int| 0 <= k < added.len() && added[k] == c;
                assert(a[k] == c);
                assert(a.contains(c));
                assert(m.contains(c));
                let j = choose|j: int| 0 <= j < m.len() && m[j] == c;
                assert(mm[j] == c);
            } else if m.contains(c) {
                let j = choose|j: int| 0 <= j < m.len() && m[j] == c;
                assert(mm[j] == c);
            }
        }
        assert forall|c: Seq<char>| mm.contains(c) implies existing.contains(c) || added.contains(c) by {
            let j = choose|j: int| 0 <= j < mm.len() && mm[j] == c;
            if j < m.len() {
                assert(m[j] == c);
                if a.contains(c) {
                    let k = choose|k: int| 0 <= k < a.len() && a[k] == c;
                    assert(added[k] == c);
                }
            } else {
                assert(added[added.len() - 1] == c);
            }
        }
    }
}

/// Whether a header cell names a column (anything but `Hours`).
pub open spec fn names_xlsx_column() -> spec_fn(Seq<char>) -> bool {
    |c: Seq<char>| c != "Hours"@
}

/// `kept_xlsx_columns` keeps exactly the cells other than `Hours`, in order.
proof fn lemma_kept_xlsx_columns_is_filter(h: Seq<Seq<char>>)
    ensures
        kept_xlsx_columns(h) == h.filter(names_xlsx_column()),
    decreases h.len(),
{
    reveal(Seq::filter);
    if h.len() > 0 {
        lemma_kept_xlsx_columns_is_filter(h.drop_last());
    }
}

/// The columns taken from an existing workbook are the cells of its first
/// row after the first one, except `Hours`, in their left-to-right order;
/// a workbook without a first row (or with an empty one) gives none.
pub proof fn law_existing_columns_keep_first_row_order(rows: Seq<Seq<Seq<char>>>)
    ensures
        rows.len() > 0 && rows[0].len() > 0 ==> existing_xlsx_columns(rows) == rows[0].drop_first().filter(
            names_xlsx_column(),
        ),
        rows.len() == 0 || rows[0].len() == 0 ==> existing_xlsx_columns(rows).len() == 0,
{
    if rows.len() > 0 && rows[0].len() > 0 {
        lemma_kept_xlsx_columns_is_filter(rows[0].drop_first());
    }
}

} // verus!
