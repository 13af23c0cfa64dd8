//! Importing category definitions from a CSV file or an XLSX worksheet.

use vstd::prelude::*;
use crate::csvfile::{csv_table, read_csv_table, table_view};
use crate::export::{first_occurrences, lemma_first_occurrences};
use crate::model::CategoryDefinition;
use crate::sheets::{import_sheet_text, import_text_rows, SheetCell};
use crate::text::{contains_string, decimal, owned, push_decimal, push_str, str_eq, strs};

verus! {

/// The most categories an import may hold.
pub const MAX_CATEGORIES: usize = 100;

/// The most values one imported category may hold.
pub const MAX_VALUES_PER_CATEGORY: usize = 1000;

/// A category as its name and values.
pub open spec fn category_view(c: CategoryDefinition) -> (Seq<char>, Seq<Seq<char>>) {
    (c.name@, strs(c.values@))
}

/// Each category as its name and values.
pub open spec fn categories_view(cs: Seq<CategoryDefinition>) -> Seq<(Seq<char>, Seq<Seq<char>>)> {
    cs.map_values(|c: CategoryDefinition| category_view(c))
}

/// The message for an import of `n` categories, over the limit.
pub open spec fn too_many_categories_message(n: nat) -> Seq<char> {
    "Too many categories: "@ + decimal(n) + " (max "@ + decimal(MAX_CATEGORIES as nat) + ")"@
}

/// The message for a category `name` with `n` values, over the limit.
pub open spec fn too_many_values_message(name: Seq<char>, n: nat) -> Seq<char> {
    "Category '"@ + name + "' has too many values: "@ + decimal(n) + " (max "@ + decimal(
        MAX_VALUES_PER_CATEGORY as nat,
    ) + ")"@
}

/// The message for the first category with too many values, if any.
pub open spec fn oversized_message(cats: Seq<(Seq<char>, Seq<Seq<char>>)>) -> Option<Seq<char>>
    decreases cats.len(),
{
    if cats.len() == 0 {
        None
    } else if cats[0].1.len() > MAX_VALUES_PER_CATEGORY {
        Some(too_many_values_message(cats[0].0, cats[0].1.len()))
    } else {
        oversized_message(cats.drop_first())
    }
}

/// Why an import is refused, if it is: too many categories, or else the
/// first category with too many values.
pub open spec fn validation_error(cats: Seq<(Seq<char>, Seq<Seq<char>>)>) -> Option<Seq<char>> {
    if cats.len() > MAX_CATEGORIES {
        Some(too_many_categories_message(cats.len()))
    } else {
        oversized_message(cats)
    }
}

/// Checks the limits on an import: at most `MAX_CATEGORIES` categories,
/// each with at most `MAX_VALUES_PER_CATEGORY` values.
pub fn validate_import(categories: &[CategoryDefinition]) -> (r: Result<(), String>)
    ensures
        match validation_error(categories_view(categories@)) {
            None => r is Ok,
            Some(m) => r matches Err(e) && e@ == m,
        },
{
    let ghost cv = categories_view(categories@);
    if categories.len() > MAX_CATEGORIES {
        let mut e = owned("Too many categories: ");
        push_decimal(&mut e, categories.len() as u64);
        push_str(&mut e, " (max ");
        push_decimal(&mut e, MAX_CATEGORIES as u64);
        push_str(&mut e, ")");
        return Err(e);
    }
    let mut i: usize = 0;
    assert(cv.skip(0) =~= cv);
    while i < categories.len()
        invariant
            i <= categories.len(),
            cv == categories_view(categories@),
            categories.len() <= MAX_CATEGORIES,
            oversized_message(cv.skip(i as int)) == oversized_message(cv),
        decreases categories.len() - i,
    {
        let c = &categories[i];
        assert(cv.skip(i as int)[0] == category_view(*c));
        assert(cv.skip(i as int).drop_first() =~= cv.skip(i + 1));
        if c.values.len() > MAX_VALUES_PER_CATEGORY {
            let mut e = owned("Category '");
            push_str(&mut e, c.name.as_str());
            push_str(&mut e, "' has too many values: ");
            push_decimal(&mut e, c.values.len() as u64);
            push_str(&mut e, " (max ");
            push_decimal(&mut e, MAX_VALUES_PER_CATEGORY as u64);
            push_str(&mut e, ")");
            assert(cv.skip(i as int)[0].1.len() == c.values@.len());
            assert(e@ == too_many_values_message(c.name@, c.values@.len()));
            assert(oversized_message(cv.skip(i as int)) == Some(e@));
            assert(validation_error(cv) == oversized_message(cv));
            return Err(e);
        }
        i += 1;
    }
    assert(cv.skip(categories.len() as int) =~= Seq::<(Seq<char>, Seq<Seq<char>>)>::empty());
    Ok(())
}

/// The non-empty cells of column `i`, row by row.
pub open spec fn column_cells(rows: Seq<Seq<Seq<char>>>, i: int) -> Seq<Seq<char>>
    decreases rows.len(),
{
    if rows.len() == 0 {
        Seq::<Seq<char>>::empty()
    } else {
        let r = column_cells(rows.drop_last(), i);
        if i < rows.last().len() && rows.last()[i].len() > 0 {
            r.push(rows.last()[i])
        } else {
            r
        }
    }
}

/// The categories of a table: one per non-empty header, whose values are the
/// distinct non-empty cells below it, in order of first appearance.
pub open spec fn table_categories(
    headers: Seq<Seq<char>>,
    rows: Seq<Seq<Seq<char>>>,
) -> Seq<(Seq<char>, Seq<Seq<char>>)>
    decreases headers.len(),
{
    if headers.len() == 0 {
        Seq::<(Seq<char>, Seq<Seq<char>>)>::empty()
    } else {
        let r = table_categories(headers.drop_last(), rows);
        if headers.last().len() > 0 {
            r.push((headers.last(), first_occurrences(column_cells(rows, headers.len() - 1))))
        } else {
            r
        }
    }
}

/// What importing a table gives: its categories, or the reason they are refused.
pub open spec fn table_import(
    headers: Seq<Seq<char>>,
    rows: Seq<Seq<Seq<char>>>,
) -> Result<Seq<(Seq<char>, Seq<Seq<char>>)>, Seq<char>> {
    let cats = table_categories(headers, rows);
    match validation_error(cats) {
        None => Ok(cats),
        Some(m) => Err(m),
    }
}

/// Whether `r` is the outcome `out` of an import.
pub open spec fn import_matches(
    out: Result<Seq<(Seq<char>, Seq<Seq<char>>)>, Seq<char>>,
    r: Result<Vec<CategoryDefinition>, String>,
) -> bool {
    match out {
        Ok(cats) => r matches Ok(v) && categories_view(v@) == cats,
        Err(m) => r matches Err(e) && e@ == m,
    }
}

/// Whether `r` is what importing the CSV file `bytes` gives: csv's refusal,
/// or the import of the table it reads.
pub open spec fn csv_import_holds(bytes: Seq<u8>, r: Result<Vec<CategoryDefinition>, String>) -> bool {
    match csv_table(bytes) {
        Err(m) => r matches Err(e) && e@ == m,
        Ok((h, rows)) => import_matches(table_import(h, rows), r),
    }
}

/// The distinct non-empty cells of column `i`, in order of first appearance.
fn column_values(rows: &Vec<Vec<String>>, i: usize) -> (values: Vec<String>)
    ensures
        strs(values@) == first_occurrences(column_cells(table_view(rows@), i as int)),
{
    let ghost t = table_view(rows@);
    let mut values: Vec<String> = Vec::new();
    let mut r: usize = 0;
    assert(t.take(0) =~= Seq::<Seq<Seq<char>>>::empty());
    while r < rows.len()
        invariant
            r <= rows.len(),
            t == table_view(rows@),
            strs(values@) == first_occurrences(column_cells(t.take(r as int), i as int)),
        decreases rows.len() - r,
    {
        let row = &rows[r];
        assert(t.take(r + 1).drop_last() =~= t.take(r as int));
        assert(t.take(r + 1).last() == strs(row@));
        if i < row.len() && !row[i].as_str().is_empty() {
            let v = &row[i];
            let ghost cells = column_cells(t.take(r as int), i as int);
            assert(column_cells(t.take(r + 1), i as int) == cells.push(v@));
            assert(cells.push(v@).drop_last() =~= cells);
            if !contains_string(&values, v) {
                let ghost before = strs(values@);
                values.push(v.clone());
                assert(strs(values@) =~= before.push(v@));
            }
        }
        r += 1;
    }
    assert(t.take(rows.len() as int) =~= t);
    values
}

/// The categories of a table with the given header and rows: one per
/// non-empty header, holding the distinct non-empty cells below it in order
/// of first appearance; refused when over the import limits.
pub fn categories_from_table(headers: &Vec<String>, rows: &Vec<Vec<String>>) -> (r: Result<Vec<CategoryDefinition>, String>)
    ensures
        import_matches(table_import(strs(headers@), table_view(rows@)), r),
{
    let ghost h = strs(headers@);
    let mut result: Vec<CategoryDefinition> = Vec::new();
    let mut i: usize = 0;
    assert(h.take(0) =~= Seq::<Seq<char>>::empty());
    while i < headers.len()
        invariant
            i <= headers.len(),
            h == strs(headers@),
            categories_view(result@) == table_categories(h.take(i as int), table_view(rows@)),
        decreases headers.len() - i,
    {
        assert(h.take(i + 1).drop_last() =~= h.take(i as int));
        assert(h.take(i + 1).last() == headers@[i as int]@);
        if !headers[i].as_str().is_empty() {
            let values = column_values(rows, i);
            let ghost before = categories_view(result@);
            let c = CategoryDefinition { name: headers[i].clone(), values };
            result.push(c);
            assert(categories_view(result@) =~= before.push(category_view(c)));
        }
        i += 1;
    }
    assert(h.take(headers.len() as int) =~= h);
    match validate_import(result.as_slice()) {
        Ok(()) => Ok(result),
        Err(e) => Err(e),
    }
}

/// Imports categories from the bytes of a CSV file: its header names the
/// categories and the cells below give their values. A file that csv cannot
/// read is refused with csv's message.
pub fn import_categories_csv(bytes: &[u8]) -> (r: Result<Vec<CategoryDefinition>, String>)
    ensures
        csv_import_holds(bytes@, r),
{
    match read_csv_table(bytes) {
        Ok((headers, rows)) => categories_from_table(&headers, &rows),
        Err(e) => Err(e),
    }
}

/// Imports categories from the first worksheet of an XLSX workbook
/// (`sheet` holds its rows; `None` means the workbook has no worksheet,
/// which is refused with `No worksheets in file`): the first row names the
/// categories and the cells below give their values, each cell shown as
/// `import_cell_text` says.
pub fn import_categories_xlsx(sheet: Option<Vec<Vec<SheetCell>>>) -> (r: Result<Vec<CategoryDefinition>, String>)
    ensures
        match sheet {
            None => r matches Err(e) && e@ == "No worksheets in file"@,
            Some(rows) => {
                let t = import_text_rows(rows@);
                if t.len() == 0 {
                    import_matches(table_import(Seq::<Seq<char>>::empty(), t), r)
                } else {
                    import_matches(table_import(t[0], t.drop_first()), r)
                }
            },
        },
{
    match sheet {
        Some(rows) => {
            let mut table = import_sheet_text(&rows);
            let ghost t = table_view(table@);
            if table.len() == 0 {
                let headers: Vec<String> = Vec::new();
                assert(strs(headers@) =~= Seq::<Seq<char>>::empty());
                categories_from_table(&headers, &table)
            } else {
                let headers = table.remove(0);
                assert(table_view(table@) =~= t.drop_first());
                categories_from_table(&headers, &table)
            }
        },
        None => Err(owned("No worksheets in file")),
    }
}

/// What std's `str::to_lowercase` gives for `s`.
pub uninterp spec fn lowercase(s: Seq<char>) -> Seq<char>;

/// std's `str::to_lowercase`. Trusted: the result is `lowercase(s@)`.
#[verifier::external_body]
fn to_lowercase(s: &str) -> (r: String)
    ensures
        r@ == lowercase(s@),
{
    s.to_lowercase()
}

/// Whether a category file with this extension is read as XLSX: when its
/// extension is `xlsx` in any case; otherwise it is read as CSV.
pub fn imports_as_xlsx(extension: Option<&str>) -> (b: bool)
    ensures
        b == (extension matches Some(ext) && lowercase(ext@) == "xlsx"@),
{
    match extension {
        Some(ext) => {
            let l = to_lowercase(ext);
            str_eq(l.as_str(), "xlsx")
        },
        None => false,
    }
}

/// `oversized_message` finds nothing exactly when no category has more than
/// the allowed number of values.
proof fn lemma_oversized_none(cats: Seq<(Seq<char>, Seq<Seq<char>>)>)
    ensures
        oversized_message(cats) is None <==> forall|i: int|
            0 <= i < cats.len() ==> #[trigger] cats[i].1.len() <= MAX_VALUES_PER_CATEGORY,
    decreases cats.len(),
{
    if cats.len() > 0 {
        lemma_oversized_none(cats.drop_first());
        assert forall|i: int| 1 <= i < cats.len() implies #[trigger] cats[i] == cats.drop_first()[i - 1] by {}
        if oversized_message(cats.drop_first()) is None && cats[0].1.len() <= MAX_VALUES_PER_CATEGORY {
            assert forall|i: int| 0 <= i < cats.len() implies #[trigger] cats[i].1.len()
                <= MAX_VALUES_PER_CATEGORY by {
                if i > 0 {
                    assert(cats.drop_first()[i - 1].1.len() <= MAX_VALUES_PER_CATEGORY);
                }
            }
        }
        if !(oversized_message(cats.drop_first()) is None) {
            let j = choose|j: int| 0 <= j < cats.drop_first().len() && !(#[trigger] cats.drop_first()[j].1.len()
                <= MAX_VALUES_PER_CATEGORY);
            assert(cats[j + 1].1.len() > MAX_VALUES_PER_CATEGORY);
        }
    }
}

/// An import is accepted exactly when it holds at most `MAX_CATEGORIES`
/// categories, each with at most `MAX_VALUES_PER_CATEGORY` values.
pub proof fn law_import_limits(cats: Seq<(Seq<char>, Seq<Seq<char>>)>)
    ensures
        validation_error(cats) is None <==> (cats.len() <= MAX_CATEGORIES && forall|i: int|
            0 <= i < cats.len() ==> #[trigger] cats[i].1.len() <= MAX_VALUES_PER_CATEGORY),
{
    lemma_oversized_none(cats);
}

/// The cells `column_cells` gathers are non-empty.
proof fn lemma_column_cells_non_empty(rows: Seq<Seq<Seq<char>>>, i: int)
    ensures
        forall|k: int| 0 <= k < column_cells(rows, i).len() ==> #[trigger] column_cells(rows, i)[k].len() > 0,
    decreases rows.len(),
{
    if rows.len() > 0 {
        lemma_column_cells_non_empty(rows.drop_last(), i);
        let r = column_cells(rows.drop_last(), i);
        assert forall|k: int| 0 <= k < column_cells(rows, i).len() implies #[trigger] column_cells(rows, i)[k].len()
            > 0 by {
            if k < r.len() {
                assert(column_cells(rows, i)[k] == r[k]);
            }
        }
    }
}

/// Every imported category has a non-empty name, and its values are
/// non-empty and distinct.
pub proof fn law_imported_categories_are_clean(headers: Seq<Seq<char>>, rows: Seq<Seq<Seq<char>>>)
    ensures
        forall|k: int| 0 <= k < table_categories(headers, rows).len() ==> {
            let c = #[trigger] table_categories(headers, rows)[k];
            &&& c.0.len() > 0
            &&& forall|j: int| 0 <= j < c.1.len() ==> #[trigger] c.1[j].len() > 0
            &&& forall|a: int, b: int| 0 <= a < b < c.1.len() ==> c.1[a] != c.1[b]
        },
    decreases headers.len(),
{
    if headers.len() > 0 {
        law_imported_categories_are_clean(headers.drop_last(), rows);
        let i = headers.len() - 1;
        let cells = column_cells(rows, i);
        lemma_column_cells_non_empty(rows, i);
        lemma_first_occurrences(cells);
        let vals = first_occurrences(cells);
        assert forall|j: int| 0 <= j < vals.len() implies #[trigger] vals[j].len() > 0 by {
            assert(vals.contains(vals[j]));
            assert(cells.contains(vals[j]));
            let k = choose|k: int| 0 <= k < cells.len() && cells[k] == vals[j];
        }
        let prev = table_categories(headers.drop_last(), rows);
        let all = table_categories(headers, rows);
        assert forall|k: int| 0 <= k < all.len() implies {
            let c = #[trigger] all[k];
            &&& c.0.len() > 0
            &&& forall|j: int| 0 <= j < c.1.len() ==> #[trigger] c.1[j].len() > 0
            &&& forall|a: int, b: int| 0 <= a < b < c.1.len() ==> c.1[a] != c.1[b]
        } by {
            if k < prev.len() {
                assert(all[k] == prev[k]);
            } else {
                assert(all[k] == (headers.last(), vals));
            }
        }
    }
}

/// Whether a header names a category: it is not empty.
pub open spec fn names_category() -> spec_fn(Seq<char>) -> bool {
    |h: Seq<char>| h.len() > 0
}

/// The name of each category.
pub open spec fn category_names(cats: Seq<(Seq<char>, Seq<Seq<char>>)>) -> Seq<Seq<char>> {
    cats.map_values(|c: (Seq<char>, Seq<Seq<char>>)| c.0)
}

/// Every non-empty header of a table yields exactly one category, in header
/// order, whether or not its column holds any value: the names of the
/// imported categories are the non-empty headers.
pub proof fn law_every_named_header_yields_a_category(headers: Seq<Seq<char>>, rows: Seq<Seq<Seq<char>>>)
    ensures
        category_names(table_categories(headers, rows)) == headers.filter(names_category()),
        table_categories(headers, rows).len() == headers.filter(names_category()).len(),
    decreases headers.len(),
{
    reveal(Seq::filter);
    if headers.len() > 0 {
        law_every_named_header_yields_a_category(headers.drop_last(), rows);
        let prev = table_categories(headers.drop_last(), rows);
        if headers.last().len() > 0 {
            let c = (headers.last(), first_occurrences(column_cells(rows, headers.len() - 1)));
            assert(category_names(prev.push(c)) =~= category_names(prev).push(headers.last()));
        }
    }
}

} // verus!
