//! Decisions of the workday, template and category editors: which drafted
//! pairs are kept, what is copied to the clipboard, what may be saved.

use vstd::prelude::*;
use crate::export::{
    entry_columns, entry_keys, entry_rows, first_occurrences, header_cells, pair_keys, row_cells,
    lookup_last, law_columns_distinct_and_complete, law_rows_align_with_header,
    lemma_entry_keys_hold_every_key,
    build_header, build_rows, WorkEntry,
};
use crate::csvfile::table_view;
use crate::model::{join_on, CategoryDefinition};
use crate::text::{chars_of, contains_string, owned, push_char, push_str, str_eq, strs};

verus! {

/// The pairs among `pairs` whose key is not empty, in order.
pub open spec fn kept_pairs(pairs: Seq<(String, String)>) -> Seq<(String, String)>
    decreases pairs.len(),
{
    if pairs.len() == 0 {
        Seq::<(String, String)>::empty()
    } else {
        let r = kept_pairs(pairs.drop_last());
        if pairs.last().0@.len() > 0 {
            r.push(pairs.last())
        } else {
            r
        }
    }
}

/// The category pairs an entry or template keeps from its draft rows: those
/// with a non-empty key, in order.
pub fn draft_categories(pairs: &Vec<(String, String)>) -> (kept: Vec<(String, String)>)
    ensures
        kept@ == kept_pairs(pairs@),
{
    let mut kept: Vec<(String, String)> = Vec::new();
    let mut i: usize = 0;
    assert(pairs@.take(0) =~= Seq::<(String, String)>::empty());
    while i < pairs.len()
        invariant
            i <= pairs.len(),
            kept@ == kept_pairs(pairs@.take(i as int)),
        decreases pairs.len() - i,
    {
        assert(pairs@.take(i + 1).drop_last() =~= pairs@.take(i as int));
        if !pairs[i].0.as_str().is_empty() {
            let k = pairs[i].0.clone();
            let v = pairs[i].1.clone();
            kept.push((k, v));
            assert(kept@.last() == pairs@[i as int]);
        }
        i += 1;
    }
    assert(pairs@.take(pairs.len() as int) =~= pairs@);
    kept
}

/// Tab-separated text of a table: cells joined by tabs, lines by newlines.
pub open spec fn tsv_text(t: Seq<Seq<Seq<char>>>) -> Seq<char> {
    join_on(t.map_values(|r: Seq<Seq<char>>| join_on(r, '\t')), '\n')
}

/// The table copied to the clipboard: `Date`, the entries' columns and
/// `Hours`, then one line per entry.
pub open spec fn clipboard_table(entries: Seq<WorkEntry>, date: Seq<char>) -> Seq<Seq<Seq<char>>> {
    let cols = entry_columns(entries);
    seq![header_cells(cols, 0)] + entry_rows(entries, cols, date, 0)
}

/// The distinct category keys of `entries` in order of first occurrence,
/// gathered in a vector.
fn clipboard_columns(entries: &[WorkEntry]) -> (cols: Vec<String>)
    ensures
        strs(cols@) == entry_columns(entries@),
{
    let mut cols: Vec<String> = Vec::new();
    let mut i: usize = 0;
    assert(entries@.take(0) =~= Seq::<WorkEntry>::empty());
    while i < entries.len()
        invariant
            i <= entries.len(),
            strs(cols@) == first_occurrences(entry_keys(entries@.take(i as int))),
        decreases entries.len() - i,
    {
        let cats = &entries[i].categories;
        let ghost base = entry_keys(entries@.take(i as int));
        let mut j: usize = 0;
        assert(base + pair_keys(cats@).take(0) =~= base);
        while j < cats.len()
            invariant
                j <= cats.len(),
                cats@ == entries@[i as int].categories@,
                strs(cols@) == first_occurrences(base + pair_keys(cats@).take(j as int)),
            decreases cats.len() - j,
        {
            let k = &cats[j].0;
            let ghost prev = base + pair_keys(cats@).take(j as int);
            if !contains_string(&cols, k) {
                let ghost before = strs(cols@);
                cols.push(k.clone());
                assert(strs(cols@) =~= before.push(k@));
            }
            j += 1;
            assert((base + pair_keys(cats@).take(j as int)).drop_last() =~= prev);
            assert((base + pair_keys(cats@).take(j as int)).last() == cats@[j - 1].0@);
        }
        assert(pair_keys(cats@).take(cats.len() as int) =~= pair_keys(cats@));
        assert(entries@.take(i + 1).drop_last() =~= entries@.take(i as int));
        i += 1;
    }
    assert(entries@.take(entries.len() as int) =~= entries@);
    cols
}

/// Appends the cells of `row` to `s`, separated by tabs.
fn push_tab_joined(s: &mut String, row: &Vec<String>)
    ensures
        final(s)@ == old(s)@ + join_on(strs(row@), '\t'),
{
    let ghost r = strs(row@);
    let mut i: usize = 0;
    assert(r.take(0) =~= Seq::<Seq<char>>::empty());
    while i < row.len()
        invariant
            i <= row.len(),
            r == strs(row@),
            s@ == old(s)@ + join_on(r.take(i as int), '\t'),
        decreases row.len() - i,
    {
        let ghost before = s@;
        assert(r.take(i + 1).drop_last() =~= r.take(i as int));
        if i > 0 {
            push_char(s, '\t');
        }
        push_str(s, row[i].as_str());
        i += 1;
        if i == 1 {
            assert(r.take(1) =~= seq![r[0]]);
        }
        assert(s@ =~= old(s)@ + join_on(r.take(i as int), '\t'));
    }
    assert(r.take(row.len() as int) =~= r);
}

/// The entries as tab-separated text for the clipboard: a header line with
/// `Date`, the entries' columns and `Hours`, then one line per entry with the
/// date, its value under each column (empty when it has none) and its hours.
pub fn format_as_tsv(entries: &[WorkEntry], date: &str) -> (text: String)
    ensures
        text@ == tsv_text(clipboard_table(entries@, date@)),
{
    let cols = clipboard_columns(entries);
    let header = build_header(&cols, 0);
    let rows = build_rows(entries, &cols, date, 0);
    let mut table: Vec<Vec<String>> = Vec::new();
    table.push(header);
    let mut k: usize = 0;
    let ghost h = table_view(table@);
    while k < rows.len()
        invariant
            k <= rows.len(),
            table_view(table@) == h + table_view(rows@).take(k as int),
        decreases rows.len() - k,
    {
        let ghost before = table_view(table@);
        table.push(rows[k].clone());
        k += 1;
        assert(table_view(table@) =~= before.push(strs(rows@[k - 1]@)));
        assert(table_view(rows@).take(k as int) =~= table_view(rows@).take(k - 1).push(strs(rows@[k - 1]@)));
    }
    assert(table_view(rows@).take(rows.len() as int) =~= table_view(rows@));
    let ghost t = table_view(table@);
    assert(t =~= clipboard_table(entries@, date@));
    let ghost lines = t.map_values(|r: Seq<Seq<char>>| join_on(r, '\t'));
    let mut text = String::new();
    let mut i: usize = 0;
    assert(lines.take(0) =~= Seq::<Seq<char>>::empty());
    while i < table.len()
        invariant
            i <= table.len(),
            t == table_view(table@),
            lines == t.map_values(|r: Seq<Seq<char>>| join_on(r, '\t')),
            text@ == join_on(lines.take(i as int), '\n'),
        decreases table.len() - i,
    {
        assert(lines.take(i + 1).drop_last() =~= lines.take(i as int));
        if i > 0 {
            push_char(&mut text, '\n');
        }
        push_tab_joined(&mut text, &table[i]);
        i += 1;
        if i == 1 {
            assert(lines.take(1) =~= seq![lines[0]]);
        }
        assert(text@ =~= join_on(lines.take(i as int), '\n'));
    }
    assert(lines.take(table.len() as int) =~= lines);
    text
}

/// Whether `c` has the Unicode `White_Space` property (the list in the
/// Unicode Character Database's PropList.txt).
pub open spec fn whitespace(c: char) -> bool {
    let u = c as u32;
    ||| 0x09 <= u <= 0x0D
    ||| u == 0x20
    ||| u == 0x85
    ||| u == 0xA0
    ||| u == 0x1680
    ||| 0x2000 <= u <= 0x200A
    ||| u == 0x2028
    ||| u == 0x2029
    ||| u == 0x202F
    ||| u == 0x205F
    ||| u == 0x3000
}

/// std's `char::is_whitespace`, documented as the Unicode `White_Space`
/// property. Trusted: the answer is `whitespace(c)`.
#[verifier::external_body]
fn is_whitespace(c: char) -> (b: bool)
    ensures
        b == whitespace(c),
{
    c.is_whitespace()
}

/// Whether `s` is empty once surrounding whitespace is trimmed, that is
/// whether every character of `s` is whitespace.
pub open spec fn blank(s: Seq<char>) -> bool {
    forall|i: int| 0 <= i < s.len() ==> #[trigger] whitespace(s[i])
}

/// Whether every character of `s` is whitespace (`s.trim().is_empty()`).
pub fn is_blank(s: &str) -> (b: bool)
    ensures
        b == blank(s@),
{
    let cs = chars_of(s);
    let mut i: usize = 0;
    while i < cs.len()
        invariant
            cs@ == s@,
            i <= cs.len(),
            forall|k: int| 0 <= k < i ==> #[trigger] whitespace(cs@[k]),
        decreases cs.len() - i,
    {
        if !is_whitespace(cs[i]) {
            return false;
        }
        i += 1;
    }
    true
}

/// Why a template with this name cannot be saved to this folder, if it
/// cannot: a blank name, or else an unset template folder.
pub open spec fn template_save_problem(name: Seq<char>, folder: Seq<char>) -> Option<Seq<char>> {
    if blank(name) {
        Some("Template name is required."@)
    } else if folder.len() == 0 {
        Some("Template folder is not set. Configure it in Settings."@)
    } else {
        None
    }
}

/// Checks a template before it is saved: its name must not be blank and the
/// template folder must be set.
pub fn check_template_save(name: &str, folder: &str) -> (r: Result<(), String>)
    ensures
        match template_save_problem(name@, folder@) {
            None => r is Ok,
            Some(m) => r matches Err(e) && e@ == m,
        },
{
    if is_blank(name) {
        return Err(owned("Template name is required."));
    }
    if folder.is_empty() {
        return Err(owned("Template folder is not set. Configure it in Settings."));
    }
    Ok(())
}

/// The non-empty strings of `v`, in order.
pub open spec fn non_empty(v: Seq<Seq<char>>) -> Seq<Seq<char>>
    decreases v.len(),
{
    if v.len() == 0 {
        Seq::<Seq<char>>::empty()
    } else {
        let r = non_empty(v.drop_last());
        if v.last().len() > 0 {
            r.push(v.last())
        } else {
            r
        }
    }
}

/// The categories the category editor saves from its drafts (name and
/// values each): blank names are dropped, and so are empty values.
pub open spec fn saved_categories(drafts: Seq<(String, Vec<String>)>) -> Seq<(Seq<char>, Seq<Seq<char>>)>
    decreases drafts.len(),
{
    if drafts.len() == 0 {
        Seq::<(Seq<char>, Seq<Seq<char>>)>::empty()
    } else {
        let r = saved_categories(drafts.drop_last());
        let d = drafts.last();
        if blank(d.0@) {
            r
        } else {
            r.push((d.0@, non_empty(strs(d.1@))))
        }
    }
}

/// The non-empty strings of `v`, in order.
fn non_empty_values(v: &Vec<String>) -> (r: Vec<String>)
    ensures
        strs(r@) == non_empty(strs(v@)),
{
    let ghost s = strs(v@);
    let mut r: Vec<String> = Vec::new();
    let mut i: usize = 0;
    assert(s.take(0) =~= Seq::<Seq<char>>::empty());
    while i < v.len()
        invariant
            i <= v.len(),
            s == strs(v@),
            strs(r@) == non_empty(s.take(i as int)),
        decreases v.len() - i,
    {
        assert(s.take(i + 1).drop_last() =~= s.take(i as int));
        assert(s.take(i + 1).last() == v@[i as int]@);
        if !v[i].as_str().is_empty() {
            let ghost before = strs(r@);
            r.push(v[i].clone());
            assert(strs(r@) =~= before.push(v@[i as int]@));
        }
        i += 1;
    }
    assert(s.take(v.len() as int) =~= s);
    r
}

/// The categories the category editor saves from its drafts: each draft with
/// a non-blank name, keeping its non-empty values in order.
pub fn categories_to_save(drafts: &Vec<(String, Vec<String>)>) -> (cats: Vec<CategoryDefinition>)
    ensures
        cats@.map_values(|c: CategoryDefinition| (c.name@, strs(c.values@))) == saved_categories(drafts@),
{
    let mut cats: Vec<CategoryDefinition> = Vec::new();
    let mut i: usize = 0;
    assert(drafts@.take(0) =~= Seq::<(String, Vec<String>)>::empty());
    while i < drafts.len()
        invariant
            i <= drafts.len(),
            cats@.map_values(|c: CategoryDefinition| (c.name@, strs(c.values@))) == saved_categories(
                drafts@.take(i as int),
            ),
        decreases drafts.len() - i,
    {
        assert(drafts@.take(i + 1).drop_last() =~= drafts@.take(i as int));
        assert(drafts@.take(i + 1).last() == drafts@[i as int]);
        let d = &drafts[i];
        if !is_blank(d.0.as_str()) {
            let ghost before = cats@.map_values(|c: CategoryDefinition| (c.name@, strs(c.values@)));
            let c = CategoryDefinition { name: d.0.clone(), values: non_empty_values(&d.1) };
            cats.push(c);
            assert(cats@.map_values(|c: CategoryDefinition| (c.name@, strs(c.values@))) =~= before.push(
                (c.name@, strs(c.values@)),
            ));
        }
        i += 1;
    }
    assert(drafts@.take(drafts.len() as int) =~= drafts@);
    cats
}

/// The values of the first definition named `key`, or none.
pub open spec fn suggested_values(defs: Seq<CategoryDefinition>, key: Seq<char>) -> Seq<Seq<char>>
    decreases defs.len(),
{
    if defs.len() == 0 {
        Seq::<Seq<char>>::empty()
    } else if defs[0].name@ == key {
        strs(defs[0].values@)
    } else {
        suggested_values(defs.drop_first(), key)
    }
}

/// A copy of the strings of `v`.
fn copy_strings(v: &Vec<String>) -> (r: Vec<String>)
    ensures
        strs(r@) == strs(v@),
{
    let mut r: Vec<String> = Vec::new();
    let mut i: usize = 0;
    while i < v.len()
        invariant
            i <= v.len(),
            strs(r@) == strs(v@).take(i as int),
        decreases v.len() - i,
    {
        let ghost before = strs(r@);
        r.push(v[i].clone());
        i += 1;
        assert(strs(r@) =~= before.push(v@[i - 1]@));
        assert(strs(r@) =~= strs(v@).take(i as int));
    }
    assert(strs(v@).take(v.len() as int) =~= strs(v@));
    r
}

/// The values offered for a category key in the editors: those of the first
/// category definition with that name, or none when no definition has it.
pub fn value_suggestions(defs: &[CategoryDefinition], key: &str) -> (values: Vec<String>)
    ensures
        strs(values@) == suggested_values(defs@, key@),
{
    let mut i: usize = 0;
    assert(defs@.skip(0) =~= defs@);
    while i < defs.len()
        invariant
            i <= defs.len(),
            suggested_values(defs@.skip(i as int), key@) == suggested_values(defs@, key@),
        decreases defs.len() - i,
    {
        assert(defs@.skip(i as int)[0] == defs@[i as int]);
        assert(defs@.skip(i as int).drop_first() =~= defs@.skip(i + 1));
        if str_eq(defs[i].name.as_str(), key) {
            return copy_strings(&defs[i].values);
        }
        i += 1;
    }
    assert(defs@.skip(defs.len() as int) =~= Seq::<CategoryDefinition>::empty());
    Vec::new()
}

/// How the settings page shows a folder: `Not set` when it is empty.
pub fn folder_label(folder: &str) -> (label: String)
    ensures
        label@ == (if folder@.len() == 0 { "Not set"@ } else { folder@ }),
{
    if folder.is_empty() {
        owned("Not set")
    } else {
        owned(folder)
    }
}

/// What the workday page learns while it exports.
pub enum ExportEvent {
    /// The user asked for an export.
    Requested,
    /// The folder picker closed, with the folder chosen, or none.
    FolderPicked(Option<String>),
    /// The folder picker could not be opened.
    PickerFailed,
    /// The export's arguments could not be prepared; the error's text.
    ArgumentsFailed(String),
    /// The export finished.
    Exported,
    /// The export failed; the error's text.
    ExportFailed(String),
}

/// What the workday page does next while it exports.
pub enum ExportAction {
    /// Show this status message; the export is over.
    Report(String),
    /// Open the folder picker.
    PickFolder,
    /// Export into `folder`; when `remember`, first keep it as the export
    /// folder and save the settings.
    Export { folder: String, remember: bool },
}

/// The next step of an export from the workday page, given whether there
/// are entries, the export folder of the settings (empty when unset) and
/// what just happened: a request with no entries is refused; with a folder
/// set it exports there; without one it opens the folder picker; a picked
/// folder is kept and exported to; no pick, a failed picker, failed
/// arguments, success and failure each end with their message.
pub fn export_step(entries_empty: bool, folder: &str, event: ExportEvent) -> (r: ExportAction)
    ensures
        match event {
            ExportEvent::Requested => if entries_empty {
                r matches ExportAction::Report(m) && m@ == "No entries to export."@
            } else if folder@.len() > 0 {
                r matches ExportAction::Export { folder: f, remember } && f@ == folder@ && !remember
            } else {
                r is PickFolder
            },
            ExportEvent::FolderPicked(Some(p)) =>
                r matches ExportAction::Export { folder: f, remember } && f@ == p@ && remember,
            ExportEvent::FolderPicked(None) =>
                r matches ExportAction::Report(m) && m@ == "No folder selected."@,
            ExportEvent::PickerFailed =>
                r matches ExportAction::Report(m) && m@ == "Could not open folder picker."@,
            ExportEvent::ArgumentsFailed(d) =>
                r matches ExportAction::Report(m) && m@ == "Error: "@ + d@,
            ExportEvent::Exported => r matches ExportAction::Report(m) && m@ == "Exported!"@,
            ExportEvent::ExportFailed(d) =>
                r matches ExportAction::Report(m) && m@ == "Export failed: "@ + d@,
        },
{
    match event {
        ExportEvent::Requested => {
            if entries_empty {
                ExportAction::Report(owned("No entries to export."))
            } else if !folder.is_empty() {
                ExportAction::Export { folder: owned(folder), remember: false }
            } else {
                ExportAction::PickFolder
            }
        },
        ExportEvent::FolderPicked(Some(p)) => ExportAction::Export { folder: p, remember: true },
        ExportEvent::FolderPicked(None) => ExportAction::Report(owned("No folder selected.")),
        ExportEvent::PickerFailed => ExportAction::Report(owned("Could not open folder picker.")),
        ExportEvent::ArgumentsFailed(d) => {
            let mut m = owned("Error: ");
            push_str(&mut m, d.as_str());
            ExportAction::Report(m)
        },
        ExportEvent::Exported => ExportAction::Report(owned("Exported!")),
        ExportEvent::ExportFailed(d) => {
            let mut m = owned("Export failed: ");
            push_str(&mut m, d.as_str());
            ExportAction::Report(m)
        },
    }
}

/// The clipboard text's table has a header line and one line per entry. Its
/// header is `Date`, then every category key of all the entries, each once
/// and in order of first occurrence, then `Hours`; every key of every entry
/// is in it; and each entry's line holds, under each key, the entry's value
/// for that key.
pub proof fn law_clipboard_header_names_every_key(entries: Seq<WorkEntry>, date: Seq<char>)
    ensures
        clipboard_table(entries, date).len() == entries.len() + 1,
        clipboard_table(entries, date)[0] == header_cells(entry_columns(entries), 0),
        forall|i: int, j: int|
            0 <= i < entries.len() && 0 <= j < entries[i].categories@.len() ==> #[trigger] clipboard_table(
                entries,
                date,
            )[0].contains(entries[i].categories@[j].0@),
        forall|i: int, k: int|
            0 <= i < entries.len() && 1 <= k <= entry_columns(entries).len() ==> #[trigger] clipboard_table(
                entries,
                date,
            )[i + 1][k] == lookup_last(entries[i].categories@, clipboard_table(entries, date)[0][k]),
{
    let cols = entry_columns(entries);
    let t = clipboard_table(entries, date);
    law_columns_distinct_and_complete(entries);
    assert forall|i: int, j: int|
        0 <= i < entries.len() && 0 <= j < entries[i].categories@.len() implies #[trigger] t[0].contains(
            entries[i].categories@[j].0@,
        ) by {
        let key = entries[i].categories@[j].0@;
        lemma_entry_keys_hold_every_key(entries, i, j);
        assert(cols.contains(key));
        let m = choose|m: int| 0 <= m < cols.len() && cols[m] == key;
        assert(t[0][m + 1] == key);
    }
    assert forall|i: int, k: int| 0 <= i < entries.len() && 1 <= k <= cols.len() implies #[trigger] t[i + 1][k]
        == lookup_last(entries[i].categories@, t[0][k]) by {
        let e = entries[i];
        assert(t[i + 1] == row_cells(e.categories@, cols, date, 0, e.hours_text@));
        law_rows_align_with_header(e.categories@, cols, date, 0, e.hours_text@);
        assert(row_cells(e.categories@, cols, date, 0, e.hours_text@)[k] == lookup_last(
            e.categories@,
            header_cells(cols, 0)[k],
        ));
    }
}

/// Whenever a definition is named `key`, the suggestions are the values of
/// the first definition with that name, wherever it stands.
pub proof fn law_suggestions_come_from_the_first_definition_named_key(
    defs: Seq<CategoryDefinition>,
    key: Seq<char>,
    j: int,
)
    requires
        0 <= j < defs.len(),
        defs[j].name@ == key,
        forall|i: int| 0 <= i < j ==> #[trigger] defs[i].name@ != key,
    ensures
        suggested_values(defs, key) == strs(defs[j].values@),
    decreases j,
{
    if j > 0 {
        assert(defs[0].name@ != key);
        let rest = defs.drop_first();
        assert forall|i: int| 0 <= i < j - 1 implies #[trigger] rest[i].name@ != key by {
            assert(rest[i] == defs[i + 1]);
        }
        assert(rest[j - 1] == defs[j]);
        law_suggestions_come_from_the_first_definition_named_key(rest, key, j - 1);
    }
}

/// When no definition is named `key`, nothing is suggested.
pub proof fn law_no_suggestions_without_a_definition(defs: Seq<CategoryDefinition>, key: Seq<char>)
    requires
        forall|i: int| 0 <= i < defs.len() ==> #[trigger] defs[i].name@ != key,
    ensures
        suggested_values(defs, key).len() == 0,
    decreases defs.len(),
{
    if defs.len() > 0 {
        let rest = defs.drop_first();
        assert forall|i: int| 0 <= i < rest.len() implies #[trigger] rest[i].name@ != key by {
            assert(rest[i] == defs[i + 1]);
        }
        law_no_suggestions_without_a_definition(rest, key);
    }
}

} // verus!
