use get_clocked::categories::{
    categories_from_table, import_categories_csv, import_categories_xlsx, imports_as_xlsx,
    validate_import,
};
use get_clocked::model::CategoryDefinition;
use get_clocked::sheets::SheetCell;

fn strings(v: &[&str]) -> Vec<String> {
    v.iter().map(|s| s.to_string()).collect()
}

fn cat(name: &str, n: usize) -> CategoryDefinition {
    CategoryDefinition { name: name.to_string(), values: (0..n).map(|i| i.to_string()).collect() }
}

#[test]
fn table_columns_become_categories() {
    let headers = strings(&["Project", "", "Task"]);
    let rows = vec![
        strings(&["Alpha", "x", "Build"]),
        strings(&["Beta", "y", ""]),
        strings(&["Alpha", "z", "Test"]),
        strings(&["Gamma"]),
    ];
    let cats = categories_from_table(&headers, &rows).unwrap();
    assert_eq!(cats.len(), 2);
    assert_eq!(cats[0].name, "Project");
    assert_eq!(cats[0].values, vec!["Alpha", "Beta", "Gamma"]);
    assert_eq!(cats[1].name, "Task");
    assert_eq!(cats[1].values, vec!["Build", "Test"]);
}

#[test]
fn too_many_categories() {
    let cats: Vec<CategoryDefinition> = (0..101).map(|i| cat(&format!("c{}", i), 1)).collect();
    assert_eq!(validate_import(&cats).unwrap_err(), "Too many categories: 101 (max 100)");
    assert!(validate_import(&cats[..100]).is_ok());
}

#[test]
fn too_many_values() {
    let cats = vec![cat("ok", 1000), cat("big", 1001), cat("bigger", 2000)];
    assert_eq!(
        validate_import(&cats).unwrap_err(),
        "Category 'big' has too many values: 1001 (max 1000)"
    );
}

#[test]
fn csv_import() {
    let bytes = b"Project,Task\nAlpha,Build\nBeta,\nAlpha,Test\n";
    let cats = import_categories_csv(bytes).unwrap();
    assert_eq!(cats[0].values, vec!["Alpha", "Beta"]);
    assert_eq!(cats[1].values, vec!["Build", "Test"]);
}

#[test]
fn csv_import_refuses_ragged_rows() {
    assert!(import_categories_csv(b"A,B\n1,2,3\n").is_err());
}

fn text(s: &str) -> SheetCell {
    SheetCell::Text(s.to_string())
}

fn sheet() -> Vec<Vec<SheetCell>> {
    vec![
        vec![text("Project"), text("Hours")],
        vec![text("Alpha"), SheetCell::Int(8)],
        vec![text("Alpha"), SheetCell::Float { display: "4.5".to_string(), one_decimal: "4.5".to_string() }],
        vec![SheetCell::Empty, SheetCell::Int(8)],
    ]
}

#[test]
fn xlsx_import() {
    let cats = import_categories_xlsx(Some(sheet())).unwrap();
    assert_eq!(cats.len(), 2);
    assert_eq!(cats[0].name, "Project");
    assert_eq!(cats[0].values, vec!["Alpha"]);
    assert_eq!(cats[1].values, vec!["8", "4.5"]);
}

#[test]
fn xlsx_import_without_a_worksheet() {
    assert_eq!(import_categories_xlsx(None).unwrap_err(), "No worksheets in file");
    assert!(import_categories_xlsx(Some(vec![])).unwrap().is_empty());
}

#[test]
fn import_reads_xlsx_by_extension() {
    assert!(imports_as_xlsx(Some("XLSX")));
    assert!(imports_as_xlsx(Some("xlsx")));
    assert!(!imports_as_xlsx(Some("csv")));
    assert!(!imports_as_xlsx(Some("xls")));
    assert!(!imports_as_xlsx(None));
}

#[test]
fn csv_import_refusal_carries_csv_message() {
    let bytes: &[u8] = b"A,B\n1,2,3\n";
    let mut rdr = csv::Reader::from_reader(bytes);
    let expected = rdr.records().find_map(|r| r.err()).unwrap().to_string();
    assert_eq!(import_categories_csv(bytes).unwrap_err(), expected);
}
