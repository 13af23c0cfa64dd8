//! Export tables: the columns, header and rows of a workday or monthly file.

use vstd::prelude::*;
use indexmap::IndexSet;
use crate::text::{owned, push_str, str_eq, strs};
use crate::model::{date_format_from_name, formatted_date, DateFormat};
use vstd::utf8::{decode_utf8, encode_utf8_decode_utf8, is_char_boundary};
use vstd::string::StringSliceAdditionalSpecFns;
use crate::csvfile::{csv_encoding, csv_header_fields, encode_csv_table, read_csv_header, same_widths, table_view};

verus! {

/// One registered block of work. `hours_text` is the hours as they appear in
/// an export, with one decimal place (for instance `7.5`).
#[derive(Clone, Debug, PartialEq)]
pub struct WorkEntry {
    pub hours_text: String,
    pub categories: Vec<(String, String)>,
}

#[verifier::external_type_specification]
#[verifier::external_body]
#[verifier::reject_recursive_types(T)]
#[verifier::reject_recursive_types(S)]
pub struct ExIndexSet<T, S>(IndexSet<T, S>);

/// The items of an `IndexSet` of strings, in insertion order.
pub uninterp spec fn column_set_items(s: IndexSet<String>) -> Seq<Seq<char>>;

/// indexmap's `IndexSet::new`. Trusted: the new set holds no item.
#[verifier::external_body]
fn column_set_new() -> (s: IndexSet<String>)
    ensures
        column_set_items(s) == Seq::<Seq<char>>::empty(),
{
    IndexSet::new()
}

/// indexmap's `IndexSet::insert`. Trusted: an item not yet present is added
/// at the end and `true` comes back; an item already present leaves the set
/// as it was and `false` comes back.
#[verifier::external_body]
fn column_set_insert(s: &mut IndexSet<String>, v: String) -> (added: bool)
    ensures
        added == !column_set_items(*old(s)).contains(v@),
        added ==> column_set_items(*final(s)) == column_set_items(*old(s)).push(v@),
        !added ==> column_set_items(*final(s)) == column_set_items(*old(s)),
{
    s.insert(v)
}

/// indexmap's `IndexSet::into_iter`, collected. Trusted: the items come out
/// in insertion order.
#[verifier::external_body]
fn column_set_into_vec(s: IndexSet<String>) -> (v: Vec<String>)
    ensures
        strs(v@) == column_set_items(s),
{
    s.into_iter().collect()
}

/// The keys of category pairs, in order.
pub open spec fn pair_keys(cats: Seq<(String, String)>) -> Seq<Seq<char>> {
    cats.map_values(|p: (String, String)| p.0@)
}

/// The category keys of all entries, entry by entry, in order.
pub open spec fn entry_keys(entries: Seq<WorkEntry>) -> Seq<Seq<char>>
    decreases entries.len(),
{
    if entries.len() == 0 {
        Seq::<Seq<char>>::empty()
    } else {
        entry_keys(entries.drop_last()) + pair_keys(entries.last().categories@)
    }
}

/// Each distinct item of `s` once, in the order of its first occurrence.
pub open spec fn first_occurrences(s: Seq<Seq<char>>) -> Seq<Seq<char>>
    decreases s.len(),
{
    if s.len() == 0 {
        Seq::<Seq<char>>::empty()
    } else {
        let r = first_occurrences(s.drop_last());
        if r.contains(s.last()) {
            r
        } else {
            r.push(s.last())
        }
    }
}

/// The export columns of a list of entries: every category key once, in the
/// order in which it first occurs.
pub open spec fn entry_columns(entries: Seq<WorkEntry>) -> Seq<Seq<char>> {
    first_occurrences(entry_keys(entries))
}

/// The distinct category keys of `entries`, in order of first occurrence.
pub fn collect_columns(entries: &[WorkEntry]) -> (cols: Vec<String>)
    ensures
        strs(cols@) == entry_columns(entries@),
{
    let mut set = column_set_new();
    let mut i: usize = 0;
    assert(entries@.take(0) =~= Seq::<WorkEntry>::empty());
    while i < entries.len()
        invariant
            i <= entries.len(),
            column_set_items(set) == first_occurrences(entry_keys(entries@.take(i as int))),
        decreases entries.len() - i,
    {
        let cats = &entries[i].categories;
        let ghost base = entry_keys(entries@.take(i as int));
        let mut j: usize = 0;
        assert(base + pair_keys(cats@).take(0) =~= base);
        while j < cats.len()
            invariant
                j <= cats.len(),
                cats@ == entries@[i as int].categories@,
                column_set_items(set) == first_occurrences(base + pair_keys(cats@).take(j as int)),
            decreases cats.len() - j,
        {
            let k = cats[j].0.clone();
            let ghost prev = base + pair_keys(cats@).take(j as int);
            let _ = column_set_insert(&mut set, k);
            j += 1;
            assert((base + pair_keys(cats@).take(j as int)).drop_last() =~= prev);
            assert((base + pair_keys(cats@).take(j as int)).last() == cats@[j - 1].0@);
        }
        assert(pair_keys(cats@).take(cats.len() as int) =~= pair_keys(cats@));
        assert(entries@.take(i + 1).drop_last() =~= entries@.take(i as int));
        i += 1;
    }
    assert(entries@.take(entries.len() as int) =~= entries@);
    column_set_into_vec(set)
}

/// `n` empty strings.
pub open spec fn blanks(n: nat) -> Seq<Seq<char>> {
    Seq::new(n, |i: int| Seq::<char>::empty())
}

/// The header of an export: `Date`, the columns, `padding` empty cells, `Hours`.
pub open spec fn header_cells(cols: Seq<Seq<char>>, padding: nat) -> Seq<Seq<char>> {
    seq!["Date"@] + cols + blanks(padding) + seq!["Hours"@]
}

/// The value of the last pair whose key is `key`, or the empty string.
pub open spec fn lookup_last(cats: Seq<(String, String)>, key: Seq<char>) -> Seq<char>
    decreases cats.len(),
{
    if cats.len() == 0 {
        Seq::<char>::empty()
    } else if cats.last().0@ == key {
        cats.last().1@
    } else {
        lookup_last(cats.drop_last(), key)
    }
}

/// The cells of an entry under the given columns.
pub open spec fn column_values(cats: Seq<(String, String)>, cols: Seq<Seq<char>>) -> Seq<Seq<char>> {
    cols.map_values(|c: Seq<char>| lookup_last(cats, c))
}

/// The row of an export: the date, the entry's value for each column,
/// `padding` empty cells, the hours.
pub open spec fn row_cells(
    cats: Seq<(String, String)>,
    cols: Seq<Seq<char>>,
    date: Seq<char>,
    padding: nat,
    hours: Seq<char>,
) -> Seq<Seq<char>> {
    seq![date] + column_values(cats, cols) + blanks(padding) + seq![hours]
}

/// Appends `n` empty strings to `v`.
fn push_blanks(v: &mut Vec<String>, n: u32)
    ensures
        strs(final(v)@) == strs(old(v)@) + blanks(n as nat),
{
    let mut k: u32 = 0;
    while k < n
        invariant
            k <= n,
            strs(v@) == strs(old(v)@) + blanks(k as nat),
        decreases n - k,
    {
        let ghost before = strs(v@);
        v.push(String::new());
        k += 1;
        assert(strs(v@) =~= before.push(Seq::<char>::empty()));
        assert(strs(old(v)@) + blanks(k as nat) =~= strs(old(v)@) + blanks((k - 1) as nat)
            + seq![Seq::<char>::empty()]);
    }
}

/// The header row: `Date`, the columns, `padding_columns` empty cells, `Hours`.
pub fn build_header(cols: &[String], padding_columns: u32) -> (header: Vec<String>)
    ensures
        strs(header@) == header_cells(strs(cols@), padding_columns as nat),
{
    let mut header: Vec<String> = Vec::new();
    header.push(owned("Date"));
    let mut i: usize = 0;
    while i < cols.len()
        invariant
            i <= cols.len(),
            strs(header@) == seq!["Date"@] + strs(cols@).take(i as int),
        decreases cols.len() - i,
    {
        let ghost before = strs(header@);
        let c = cols[i].clone();
        header.push(c);
        assert(strs(header@) =~= before.push(cols@[i as int]@));
        i += 1;
        assert(strs(cols@).take(i as int) =~= strs(cols@).take(i - 1).push(cols@[i - 1]@));
    }
    assert(strs(cols@).take(cols.len() as int) =~= strs(cols@));
    push_blanks(&mut header, padding_columns);
    let ghost before = strs(header@);
    header.push(owned("Hours"));
    assert(strs(header@) =~= before.push("Hours"@));
    header
}

/// The value of the last category pair with key `key`, or the empty string.
fn lookup_value(cats: &Vec<(String, String)>, key: &String) -> (v: String)
    ensures
        v@ == lookup_last(cats@, key@),
{
    let mut i: usize = cats.len();
    assert(cats@.take(i as int) =~= cats@);
    while i > 0
        invariant
            i <= cats.len(),
            lookup_last(cats@.take(i as int), key@) == lookup_last(cats@, key@),
        decreases i,
    {
        let ghost t = cats@.take(i as int);
        assert(t.drop_last() =~= cats@.take(i - 1));
        i -= 1;
        if cats[i].0 == *key {
            return cats[i].1.clone();
        }
    }
    String::new()
}

/// The export row of `entry`: the date, the entry's value under each column
/// (the last pair with that key wins; empty when there is none),
/// `padding_columns` empty cells, and the hours.
pub fn build_row(entry: &WorkEntry, cols: &[String], date: &str, padding_columns: u32) -> (row: Vec<String>)
    ensures
        strs(row@) == row_cells(
            entry.categories@,
            strs(cols@),
            date@,
            padding_columns as nat,
            entry.hours_text@,
        ),
{
    let mut row: Vec<String> = Vec::new();
    row.push(owned(date));
    let mut i: usize = 0;
    while i < cols.len()
        invariant
            i <= cols.len(),
            strs(row@) == seq![date@] + column_values(entry.categories@, strs(cols@).take(i as int)),
        decreases cols.len() - i,
    {
        let ghost before = strs(row@);
        let v = lookup_value(&entry.categories, &cols[i]);
        row.push(v);
        assert(strs(row@) =~= before.push(lookup_last(entry.categories@, cols@[i as int]@)));
        i += 1;
        assert(strs(cols@).take(i as int) =~= strs(cols@).take(i - 1).push(cols@[i - 1]@));
        assert(column_values(entry.categories@, strs(cols@).take(i as int)) =~= column_values(
            entry.categories@,
            strs(cols@).take(i - 1),
        ).push(lookup_last(entry.categories@, cols@[i - 1]@)));
    }
    assert(strs(cols@).take(cols.len() as int) =~= strs(cols@));
    push_blanks(&mut row, padding_columns);
    let ghost before = strs(row@);
    row.push(entry.hours_text.clone());
    assert(strs(row@) =~= before.push(entry.hours_text@));
    row
}

/// The export row of each entry, in order.
pub open spec fn entry_rows(
    entries: Seq<WorkEntry>,
    cols: Seq<Seq<char>>,
    date: Seq<char>,
    padding: nat,
) -> Seq<Seq<Seq<char>>> {
    entries.map_values(|e: WorkEntry| row_cells(e.categories@, cols, date, padding, e.hours_text@))
}

/// A workday export: the header over the entries' columns, then one row per entry.
pub open spec fn workday_cells(entries: Seq<WorkEntry>, date: Seq<char>, padding: nat) -> Seq<Seq<Seq<char>>> {
    let cols = entry_columns(entries);
    seq![header_cells(cols, padding)] + entry_rows(entries, cols, date, padding)
}

/// The export rows of `entries` under `cols`.
pub fn build_rows(entries: &[WorkEntry], cols: &[String], date: &str, padding_columns: u32) -> (rows: Vec<Vec<String>>)
    ensures
        table_view(rows@) == entry_rows(entries@, strs(cols@), date@, padding_columns as nat),
{
    let mut rows: Vec<Vec<String>> = Vec::new();
    let mut i: usize = 0;
    while i < entries.len()
        invariant
            i <= entries.len(),
            table_view(rows@) == entry_rows(entries@.take(i as int), strs(cols@), date@, padding_columns as nat),
        decreases entries.len() - i,
    {
        let ghost before = table_view(rows@);
        let row = build_row(&entries[i], cols, date, padding_columns);
        rows.push(row);
        i += 1;
        assert(table_view(rows@) =~= before.push(strs(row@)));
        assert(entry_rows(entries@.take(i as int), strs(cols@), date@, padding_columns as nat) =~= entry_rows(
            entries@.take(i - 1),
            strs(cols@),
            date@,
            padding_columns as nat,
        ).push(strs(row@)));
    }
    assert(entries@.take(entries.len() as int) =~= entries@);
    rows
}

/// Every row of a table built from a header and entry rows over the same
/// columns and padding has the header's width.
proof fn lemma_rows_width(
    entries: Seq<WorkEntry>,
    cols: Seq<Seq<char>>,
    date: Seq<char>,
    padding: nat,
)
    ensures
        same_widths(seq![header_cells(cols, padding)] + entry_rows(entries, cols, date, padding)),
        forall|i: int| 0 <= i < entries.len() ==> #[trigger] entry_rows(entries, cols, date, padding)[i].len()
            == cols.len() + padding + 2,
        header_cells(cols, padding).len() == cols.len() + padding + 2,
{
    let t = seq![header_cells(cols, padding)] + entry_rows(entries, cols, date, padding);
    assert forall|i: int| 0 <= i < t.len() implies #[trigger] t[i].len() == t[0].len() by {
        if i > 0 {
            assert(t[i] == entry_rows(entries, cols, date, padding)[i - 1]);
        }
    }
}

/// The header and rows of a workday export.
pub fn workday_table(entries: &[WorkEntry], date: &str, padding_columns: u32) -> (table: Vec<Vec<String>>)
    ensures
        table_view(table@) == workday_cells(entries@, date@, padding_columns as nat),
{
    let cols = collect_columns(entries);
    let header = build_header(&cols, padding_columns);
    let rows = build_rows(entries, &cols, date, padding_columns);
    let mut table: Vec<Vec<String>> = Vec::new();
    table.push(header);
    let mut i: usize = 0;
    let ghost h = table_view(table@);
    while i < rows.len()
        invariant
            i <= rows.len(),
            table_view(table@) == h + table_view(rows@).take(i as int),
        decreases rows.len() - i,
    {
        let ghost before = table_view(table@);
        table.push(rows[i].clone());
        i += 1;
        assert(table_view(table@) =~= before.push(strs(rows@[i - 1]@)));
        assert(table_view(rows@).take(i as int) =~= table_view(rows@).take(i - 1).push(strs(rows@[i - 1]@)));
    }
    assert(table_view(rows@).take(rows.len() as int) =~= table_view(rows@));
    assert(table_view(table@) =~= workday_cells(entries@, date@, padding_columns as nat));
    table
}

/// The CSV file of a workday export: its header and one row per entry.
pub fn export_csv(entries: &[WorkEntry], date: &str, padding_columns: u32) -> (bytes: Vec<u8>)
    ensures
        bytes@ == csv_encoding(workday_cells(entries@, date@, padding_columns as nat)),
{
    let table = workday_table(entries, date, padding_columns);
    proof {
        lemma_rows_width(entries@, entry_columns(entries@), date@, padding_columns as nat);
    }
    encode_csv_table(&table)
}

/// The columns kept from the header of an existing monthly CSV file, after
/// its first cell: all but `Hours` and empty ones.
pub open spec fn kept_csv_columns(h: Seq<Seq<char>>) -> Seq<Seq<char>>
    decreases h.len(),
{
    if h.len() == 0 {
        Seq::<Seq<char>>::empty()
    } else {
        let r = kept_csv_columns(h.drop_last());
        if h.last() != "Hours"@ && h.last().len() > 0 {
            r.push(h.last())
        } else {
            r
        }
    }
}

/// The columns of an existing monthly CSV file with header `h`.
pub open spec fn existing_csv_columns(h: Seq<Seq<char>>) -> Seq<Seq<char>> {
    if h.len() == 0 {
        Seq::<Seq<char>>::empty()
    } else {
        kept_csv_columns(h.drop_first())
    }
}

/// The columns of an existing monthly CSV file, from its header.
pub fn csv_columns_from_header(header: &Vec<String>) -> (cols: Vec<String>)
    ensures
        strs(cols@) == existing_csv_columns(strs(header@)),
{
    let mut cols: Vec<String> = Vec::new();
    if header.len() == 0 {
        return cols;
    }
    let ghost h = strs(header@).drop_first();
    let mut i: usize = 1;
    assert(h.take(0) =~= Seq::<Seq<char>>::empty());
    while i < header.len()
        invariant
            1 <= i <= header.len(),
            h == strs(header@).drop_first(),
            strs(cols@) == kept_csv_columns(h.take(i - 1)),
        decreases header.len() - i,
    {
        let c = &header[i];
        assert(h.take(i as int).drop_last() =~= h.take(i - 1));
        assert(h.take(i as int).last() == c@);
        if !str_eq(c.as_str(), "Hours") && !c.as_str().is_empty() {
            let ghost before = strs(cols@);
            cols.push(c.clone());
            assert(strs(cols@) =~= before.push(c@));
        }
        i += 1;
    }
    assert(h.take(header.len() - 1) =~= h);
    cols
}

/// What to write for a monthly CSV export. Without an existing file it is a
/// whole workday file. With one (`existing` holds its bytes) it is the rows
/// to append, laid out under the columns of the existing header; an
/// existing file whose header cannot be read is refused with csv's message.
pub fn export_monthly_csv(
    existing: Option<&[u8]>,
    entries: &[WorkEntry],
    date: &str,
    padding_columns: u32,
) -> (r: Result<Vec<u8>, String>)
    ensures
        existing is None ==> (r matches Ok(b) && b@ == csv_encoding(
            workday_cells(entries@, date@, padding_columns as nat),
        )),
        existing matches Some(bytes) ==> match csv_header_fields(bytes@) {
            Err(m) => r matches Err(e) && e@ == m,
            Ok(h) => r matches Ok(b) && b@ == csv_encoding(
                entry_rows(entries@, existing_csv_columns(h), date@, padding_columns as nat),
            ),
        },
{
    match existing {
        None => Ok(export_csv(entries, date, padding_columns)),
        Some(bytes) => {
            let header = match read_csv_header(bytes) {
                Ok(h) => h,
                Err(e) => {
                    return Err(e);
                },
            };
            let cols = csv_columns_from_header(&header);
            let rows = build_rows(entries, &cols, date, padding_columns);
            proof {
                lemma_rows_width(entries@, strs(cols@), date@, padding_columns as nat);
                let t = entry_rows(entries@, strs(cols@), date@, padding_columns as nat);
                assert forall|i: int| 0 <= i < t.len() implies #[trigger] t[i].len() == t[0].len() by {}
            }
            Ok(encode_csv_table(&rows))
        },
    }
}

/// The file extension of an export in the format stored as `format`:
/// `xlsx` for `xlsx`, `csv` for anything else.
pub open spec fn export_extension(format: Seq<char>) -> Seq<char> {
    if format == "xlsx"@ {
        "xlsx"@
    } else {
        "csv"@
    }
}

/// Whether the format stored as `format` exports XLSX.
pub fn exports_xlsx(format: &str) -> (b: bool)
    ensures
        b == (format@ == "xlsx"@),
{
    str_eq(format, "xlsx")
}

/// The file name of a workday export: `workday_{date}.{ext}`.
pub fn workday_file_name(date: &str, format: &str) -> (name: String)
    ensures
        name@ == "workday_"@ + date@ + "."@ + export_extension(format@),
{
    let mut name = owned("workday_");
    push_str(&mut name, date);
    push_str(&mut name, ".");
    if exports_xlsx(format) {
        push_str(&mut name, "xlsx");
    } else {
        push_str(&mut name, "csv");
    }
    name
}

/// The month of an ISO date: its first seven bytes (`YYYY-MM`).
pub open spec fn month_of(date: Seq<u8>) -> Seq<char> {
    decode_utf8(date.subrange(0, 7))
}

/// The file name of a monthly export: `monthly_{YYYY-MM}.{ext}`, the month
/// being the first seven bytes of `date`.
pub fn monthly_file_name(date: &str, format: &str) -> (name: String)
    requires
        is_char_boundary(date.spec_bytes(), 7),
    ensures
        name@ == "monthly_"@ + month_of(date.spec_bytes()) + "."@ + export_extension(format@),
{
    let (month, _) = date.split_at(7);
    proof {
        encode_utf8_decode_utf8(month@);
        assert(month.spec_bytes() =~= date.spec_bytes().subrange(0, 7));
    }
    let mut name = owned("monthly_");
    push_str(&mut name, month);
    push_str(&mut name, ".");
    if exports_xlsx(format) {
        push_str(&mut name, "xlsx");
    } else {
        push_str(&mut name, "csv");
    }
    name
}

/// The date as an export shows it: `date` laid out in the date format
/// stored as `date_format` (unknown names mean `YYYY-MM-DD`).
pub fn display_date(date_format: &str, date: &str) -> (shown: String)
    ensures
        shown@ == formatted_date(date_format_from_name(date_format@), date@),
{
    let f = DateFormat::from_name(date_format);
    f.format_date(date)
}

/// `first_occurrences` lists no item twice, and lists exactly the items of
/// its input.
pub proof fn lemma_first_occurrences(s: Seq<Seq<char>>)
    ensures
        forall|i: int, j: int|
            0 <= i < j < first_occurrences(s).len() ==> first_occurrences(s)[i] != first_occurrences(s)[j],
        forall|x: Seq<char>| first_occurrences(s).contains(x) <==> s.contains(x),
    decreases s.len(),
{
    if s.len() > 0 {
        let t = s.drop_last();
        lemma_first_occurrences(t);
        let r = first_occurrences(t);
        assert(s =~= t.push(s.last()));
        assert forall|x: Seq<char>| first_occurrences(s).contains(x) <==> s.contains(x) by {
            if s.contains(x) && x != s.last() {
                let k = choose|k: int| 0 <= k < s.len() && s[k] == x;
                assert(t[k] == x);
            }
            if t.contains(x) {
                let k = choose|k: int| 0 <= k < t.len() && t[k] == x;
                assert(s[k] == x);
            }
            if !r.contains(s.last()) && first_occurrences(s).contains(x) && x != s.last() {
                let k = choose|k: int| 0 <= k < first_occurrences(s).len() && first_occurrences(s)[k] == x;
                assert(r[k] == x);
            }
            if !r.contains(s.last()) && r.contains(x) {
                let k = choose|k: int| 0 <= k < r.len() && r[k] == x;
                assert(first_occurrences(s)[k] == x);
            }
            if !r.contains(s.last()) && x == s.last() {
                assert(first_occurrences(s)[r.len() as int] == x);
            }
        }
    }
}

/// The export columns name every category key of the entries, each exactly
/// once.
pub proof fn law_columns_distinct_and_complete(entries: Seq<WorkEntry>)
    ensures
        forall|i: int, j: int|
            0 <= i < j < entry_columns(entries).len() ==> entry_columns(entries)[i] != entry_columns(entries)[j],
        forall|k: Seq<char>| entry_columns(entries).contains(k) <==> entry_keys(entries).contains(k),
{
    lemma_first_occurrences(entry_keys(entries));
}

/// Every export row is as wide as the header, and in each column the row
/// holds the entry's value for the key the header names there.
pub proof fn law_rows_align_with_header(
    cats: Seq<(String, String)>,
    cols: Seq<Seq<char>>,
    date: Seq<char>,
    padding: nat,
    hours: Seq<char>,
)
    ensures
        row_cells(cats, cols, date, padding, hours).len() == header_cells(cols, padding).len(),
        forall|k: int|
            1 <= k <= cols.len() ==> #[trigger] row_cells(cats, cols, date, padding, hours)[k]
                == lookup_last(cats, header_cells(cols, padding)[k]),
{
    assert forall|k: int| 1 <= k <= cols.len() implies #[trigger] row_cells(cats, cols, date, padding, hours)[k]
        == lookup_last(cats, header_cells(cols, padding)[k]) by {
        assert(header_cells(cols, padding)[k] == cols[k - 1]);
        assert(row_cells(cats, cols, date, padding, hours)[k] == column_values(cats, cols)[k - 1]);
    }
}

/// Whether a header cell of an existing CSV file names a column: it is
/// neither empty nor `Hours`.
pub open spec fn names_csv_column() -> spec_fn(Seq<char>) -> bool {
    |c: Seq<char>| c != "Hours"@ && c.len() > 0
}

/// `kept_csv_columns` keeps exactly the cells that name columns, in order.
proof fn lemma_kept_csv_columns_is_filter(h: Seq<Seq<char>>)
    ensures
        kept_csv_columns(h) == h.filter(names_csv_column()),
    decreases h.len(),
{
    reveal(Seq::filter);
    if h.len() > 0 {
        lemma_kept_csv_columns_is_filter(h.drop_last());
    }
}

/// The columns of an existing monthly CSV file are the header cells after
/// the first one, except empty ones and `Hours`, in their left-to-right order.
pub proof fn law_existing_csv_columns_keep_header_order(h: Seq<Seq<char>>)
    ensures
        h.len() > 0 ==> existing_csv_columns(h) == h.drop_first().filter(names_csv_column()),
        h.len() == 0 ==> existing_csv_columns(h).len() == 0,
{
    if h.len() > 0 {
        lemma_kept_csv_columns_is_filter(h.drop_first());
    }
}

/// The key of the `j`th pair of the `i`th entry is among the entries' keys.
pub proof fn lemma_entry_keys_hold_every_key(entries: Seq<WorkEntry>, i: int, j: int)
    requires
        0 <= i < entries.len(),
        0 <= j < entries[i].categories@.len(),
    ensures
        entry_keys(entries).contains(entries[i].categories@[j].0@),
    decreases entries.len(),
{
    let k = entries[i].categories@[j].0@;
    let prev = entry_keys(entries.drop_last());
    let last = pair_keys(entries.last().categories@);
    assert(entry_keys(entries) == prev + last);
    if i == entries.len() - 1 {
        assert(last[j] == k);
        assert((prev + last)[prev.len() + j] == k);
    } else {
        assert(entries.drop_last()[i] == entries[i]);
        lemma_entry_keys_hold_every_key(entries.drop_last(), i, j);
        let m = choose|m: int| 0 <= m < prev.len() && prev[m] == k;
        assert((prev + last)[m] == k);
    }
}

} // verus!
