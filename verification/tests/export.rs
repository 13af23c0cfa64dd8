use get_clocked::csvfile::encode_csv_table;
use get_clocked::export::{
    build_header, build_row, collect_columns, display_date, export_csv, export_monthly_csv,
    monthly_file_name, workday_file_name, workday_table, WorkEntry,
};

fn entry(hours: f64, cats: &[(&str, &str)]) -> WorkEntry {
    WorkEntry {
        hours_text: format!("{:.1}", hours),
        categories: cats.iter().map(|(k, v)| (k.to_string(), v.to_string())).collect(),
    }
}

#[test]
fn collect_columns_preserves_order_and_deduplicates() {
    let entries = vec![
        WorkEntry {
            hours_text: format!("{:.1}", 1.0),
            categories: vec![
                ("B".to_string(), "v1".to_string()),
                ("A".to_string(), "v2".to_string()),
            ],
        },
        WorkEntry {
            hours_text: format!("{:.1}", 2.0),
            categories: vec![
                ("A".to_string(), "v3".to_string()),
                ("C".to_string(), "v4".to_string()),
            ],
        },
    ];
    let cols = collect_columns(&entries);
    assert_eq!(cols, vec!["B", "A", "C"]);
}

#[test]
fn build_header_with_padding() {
    let cols = vec!["Project".to_string(), "Task".to_string()];
    let header = build_header(&cols, 2);
    assert_eq!(header, vec!["Date", "Project", "Task", "", "", "Hours"]);
}

#[test]
fn build_header_no_padding() {
    let cols = vec!["X".to_string()];
    let header = build_header(&cols, 0);
    assert_eq!(header, vec!["Date", "X", "Hours"]);
}

#[test]
fn build_row_maps_categories() {
    let entry = WorkEntry {
        hours_text: format!("{:.1}", 7.5),
        categories: vec![
            ("A".to_string(), "val_a".to_string()),
            ("C".to_string(), "val_c".to_string()),
        ],
    };
    let cols = vec!["A".to_string(), "B".to_string(), "C".to_string()];
    let row = build_row(&entry, &cols, "2026-03-08", 1);
    assert_eq!(row, vec!["2026-03-08", "val_a", "", "val_c", "", "7.5"]);
}

#[test]
fn collect_columns_empty() {
    let cols = collect_columns(&[]);
    assert!(cols.is_empty());
}

#[test]
fn build_row_last_pair_with_a_key_wins() {
    let e = entry(2.0, &[("A", "first"), ("A", "second")]);
    let row = build_row(&e, &["A".to_string()], "d", 0);
    assert_eq!(row, vec!["d", "second", "2.0"]);
}

#[test]
fn rows_are_as_wide_as_the_header() {
    let entries = vec![entry(1.0, &[("P", "x")]), entry(2.25, &[("T", "y"), ("P", "z")])];
    let cols = collect_columns(&entries);
    let header = build_header(&cols, 3);
    for e in &entries {
        let row = build_row(e, &cols, "2026-01-01", 3);
        assert_eq!(row.len(), header.len());
        for k in 1..=cols.len() {
            let expected = e.categories.iter().rev().find(|(key, _)| *key == header[k]).map(|(_, v)| v.clone()).unwrap_or_default();
            assert_eq!(row[k], expected);
        }
    }
}

#[test]
fn workday_table_has_header_then_rows() {
    let entries = vec![entry(1.0, &[("P", "x")]), entry(0.5, &[("T", "y")])];
    let t = workday_table(&entries, "08.03.2026", 0);
    assert_eq!(t.len(), 3);
    assert_eq!(t[0], vec!["Date", "P", "T", "Hours"]);
    assert_eq!(t[1], vec!["08.03.2026", "x", "", "1.0"]);
    assert_eq!(t[2], vec!["08.03.2026", "", "y", "0.5"]);
}

#[test]
fn export_csv_bytes() {
    let entries = vec![entry(7.5, &[("Project", "Alpha, Inc")])];
    let bytes = export_csv(&entries, "2026-03-08", 1);
    assert_eq!(
        String::from_utf8(bytes).unwrap(),
        "Date,Project,,Hours\n2026-03-08,\"Alpha, Inc\",,7.5\n"
    );
}

#[test]
fn export_csv_without_entries_has_only_the_header() {
    let bytes = export_csv(&[], "2026-03-08", 0);
    assert_eq!(String::from_utf8(bytes).unwrap(), "Date,Hours\n");
}

#[test]
fn monthly_csv_new_file_is_a_workday_file() {
    let entries = vec![entry(1.0, &[("A", "a")])];
    let bytes = export_monthly_csv(None, &entries, "d", 0).unwrap();
    assert_eq!(bytes, export_csv(&entries, "d", 0));
}

#[test]
fn monthly_csv_appends_under_existing_columns() {
    let existing = b"Date,B,,A,Hours\n2026-03-01,b,,a,1.0\n";
    let entries = vec![entry(2.0, &[("A", "new_a"), ("C", "ignored")])];
    let bytes = export_monthly_csv(Some(existing), &entries, "2026-03-09", 1).unwrap();
    assert_eq!(String::from_utf8(bytes).unwrap(), "2026-03-09,,new_a,,2.0\n");
}

#[test]
fn monthly_csv_refuses_an_unreadable_header() {
    let existing: &[u8] = &[0xff, 0xfe, b',', b'\n'];
    let entries = vec![entry(1.0, &[])];
    assert!(export_monthly_csv(Some(existing), &entries, "d", 0).is_err());
}

#[test]
fn file_names() {
    assert_eq!(workday_file_name("2026-03-08", "xlsx"), "workday_2026-03-08.xlsx");
    assert_eq!(workday_file_name("2026-03-08", "csv"), "workday_2026-03-08.csv");
    assert_eq!(workday_file_name("2026-03-08", "pdf"), "workday_2026-03-08.csv");
    assert_eq!(monthly_file_name("2026-03-08", "xlsx"), "monthly_2026-03.xlsx");
    assert_eq!(monthly_file_name("2026-03-08", "other"), "monthly_2026-03.csv");
}

#[test]
fn display_dates() {
    assert_eq!(display_date("DD.MM.YYYY", "2026-03-08"), "08.03.2026");
    assert_eq!(display_date("nonsense", "2026-03-08"), "2026-03-08");
    assert_eq!(display_date("YYYY.MM.DD", "2026-03"), "2026-03");
}

#[test]
fn csv_quoting_follows_the_stated_rules() {
    let rows = vec![
        vec!["a\"b".to_string(), "x\ny".to_string(), "".to_string()],
        vec!["c\rd".to_string(), "e,f".to_string(), "plain".to_string()],
    ];
    assert_eq!(
        String::from_utf8(encode_csv_table(&rows)).unwrap(),
        "\"a\"\"b\",\"x\ny\",\n\"c\rd\",\"e,f\",plain\n"
    );
    let single = vec![vec!["".to_string()], vec!["".to_string()]];
    assert_eq!(String::from_utf8(encode_csv_table(&single)).unwrap(), "\"\"\n\"\"\n");
}
