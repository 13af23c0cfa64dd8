use get_clocked::export::WorkEntry;
use get_clocked::sheets::{import_sheet_text, merge_columns, monthly_sheet, read_monthly_workbook, workday_sheet, SheetCell};

fn entry(hours: f64, cats: &[(&str, &str)]) -> WorkEntry {
    WorkEntry {
        hours_text: format!("{:.1}", hours),
        categories: cats.iter().map(|(k, v)| (k.to_string(), v.to_string())).collect(),
    }
}

fn strings(v: &[&str]) -> Vec<String> {
    v.iter().map(|s| s.to_string()).collect()
}

#[test]
fn merge_keeps_existing_columns_first() {
    let merged = merge_columns(strings(&["B", "A"]), &strings(&["A", "C", "B", "D"]));
    assert_eq!(merged, vec!["B", "A", "C", "D"]);
}

#[test]
fn workday_sheet_layout() {
    let s = workday_sheet(&[entry(3.0, &[("P", "p")])], "d", 1);
    assert_eq!(s.header, vec!["Date", "P", "", "Hours"]);
    assert!(s.kept_rows.is_empty());
    assert_eq!(s.entry_rows, vec![strings(&["d", "p", "", "3.0"])]);
}

#[test]
fn monthly_sheet_merges_and_truncates() {
    let existing = vec![
        strings(&["Date", "A", "Hours"]),
        strings(&["01.03.2026", "a", "1.0", "extra1", "extra2"]),
    ];
    let s = monthly_sheet(Some(existing), &[entry(2.0, &[("B", "b"), ("A", "x")])], "09.03.2026", 0);
    assert_eq!(s.header, vec!["Date", "A", "B", "Hours"]);
    assert_eq!(s.kept_rows, vec![strings(&["01.03.2026", "a", "1.0", "extra1"])]);
    assert_eq!(s.entry_rows, vec![strings(&["09.03.2026", "x", "b", "2.0"])]);
}

#[test]
fn monthly_sheet_with_an_empty_workbook() {
    let s = monthly_sheet(Some(vec![]), &[entry(1.0, &[("A", "a")])], "d", 0);
    assert_eq!(s.header, vec!["Date", "A", "Hours"]);
    assert!(s.kept_rows.is_empty());
}

#[test]
fn monthly_sheet_without_a_workbook() {
    let s = monthly_sheet(None, &[entry(1.0, &[("A", "a")])], "d", 2);
    assert_eq!(s.header, vec!["Date", "A", "", "", "Hours"]);
}

fn sample_sheet() -> Vec<Vec<SheetCell>> {
    vec![
        vec![
            SheetCell::Text("Date".to_string()),
            SheetCell::Text("Project".to_string()),
            SheetCell::Text("Hours".to_string()),
        ],
        vec![
            SheetCell::Text("08.03.2026".to_string()),
            SheetCell::Int(-42),
            SheetCell::Float { display: "7.25".to_string(), one_decimal: format!("{:.1}", 7.25) },
            SheetCell::Bool(true),
            SheetCell::DateTimeIso("2026-03-08T10:00".to_string()),
            SheetCell::Error { display: "#DIV/0!".to_string() },
            SheetCell::Empty,
        ],
    ]
}

#[test]
fn read_monthly_workbook_cells() {
    let rows = read_monthly_workbook(Some(sample_sheet())).unwrap();
    assert_eq!(rows[0], vec!["Date", "Project", "Hours"]);
    assert_eq!(rows[1], vec!["08.03.2026", "-42", "7.2", "", "", "", ""]);
}

#[test]
fn read_monthly_workbook_without_a_worksheet() {
    assert_eq!(
        read_monthly_workbook(None).unwrap_err(),
        "No worksheets in existing monthly file"
    );
}

#[test]
fn import_shows_every_kind_of_cell() {
    let rows = import_sheet_text(&sample_sheet());
    assert_eq!(
        rows[1],
        vec!["08.03.2026", "-42", "7.25", "true", "2026-03-08T10:00", "#DIV/0!", ""]
    );
}
