use get_clocked::model::{DateFormat, ExportFormat, Settings};

#[test]
fn date_format_yyyy_mm_dd() {
    let fmt = DateFormat::YyyyMmDd;
    assert_eq!(fmt.format_date("2026-03-08"), "2026-03-08");
}

#[test]
fn date_format_dd_dot_mm_dot_yyyy() {
    let fmt = DateFormat::DdDotMmDotYyyy;
    assert_eq!(fmt.format_date("2026-03-08"), "08.03.2026");
}

#[test]
fn date_format_dd_mm_yyyy() {
    let fmt = DateFormat::DdMmYyyy;
    assert_eq!(fmt.format_date("2026-03-08"), "08-03-2026");
}

#[test]
fn date_format_yyyy_dot_mm_dot_dd() {
    let fmt = DateFormat::YyyyDotMmDotDd;
    assert_eq!(fmt.format_date("2026-03-08"), "2026.03.08");
}

#[test]
fn date_format_invalid_date() {
    let fmt = DateFormat::DdDotMmDotYyyy;
    // "not-a-date" splits into 3 parts, so it gets reformatted
    assert_eq!(fmt.format_date("not-a-date"), "date.a.not");
    // Only 2 parts — returned as-is
    assert_eq!(fmt.format_date("2026-03"), "2026-03");
}

#[test]
fn export_format_from_str_roundtrip() {
    assert_eq!("csv".parse::<ExportFormat>().unwrap(), ExportFormat::Csv);
    assert_eq!("xlsx".parse::<ExportFormat>().unwrap(), ExportFormat::Xlsx);
    assert_eq!("unknown".parse::<ExportFormat>().unwrap(), ExportFormat::Csv);
}

#[test]
fn date_format_from_str_roundtrip() {
    let formats = [
        DateFormat::YyyyMmDd,
        DateFormat::YyyyDotMmDotDd,
        DateFormat::DdMmYyyy,
        DateFormat::DdDotMmDotYyyy,
    ];
    for fmt in &formats {
        let s = fmt.as_str();
        let parsed: DateFormat = s.parse().unwrap();
        assert_eq!(&parsed, fmt);
    }
}

#[test]
fn date_format_from_str_unknown_defaults() {
    let parsed: DateFormat = "garbage".parse().unwrap();
    assert_eq!(parsed, DateFormat::YyyyMmDd);
}

#[test]
fn settings_default() {
    let s = Settings::default();
    assert_eq!(s.export_format, "csv");
    assert_eq!(s.date_format, "YYYY-MM-DD");
    assert_eq!(s.padding_columns, 0);
}

#[test]
fn settings_default_folders_are_empty() {
    let s = Settings::default();
    assert_eq!(s.export_folder, "");
    assert_eq!(s.template_folder, "");
    assert_eq!(get_clocked::model::default_date_format(), "YYYY-MM-DD");
}

#[test]
fn export_format_names_roundtrip() {
    for f in [ExportFormat::Csv, ExportFormat::Xlsx] {
        assert_eq!(ExportFormat::from_str(f.as_str()), f);
    }
    assert_eq!(ExportFormat::Csv.as_str(), "csv");
    assert_eq!(ExportFormat::Xlsx.as_str(), "xlsx");
    assert_eq!(ExportFormat::from_str("XLSX"), ExportFormat::Csv);
    assert_eq!(ExportFormat::default(), ExportFormat::Csv);
}

#[test]
fn date_format_names() {
    assert_eq!(DateFormat::YyyyMmDd.as_str(), "YYYY-MM-DD");
    assert_eq!(DateFormat::YyyyDotMmDotDd.as_str(), "YYYY.MM.DD");
    assert_eq!(DateFormat::DdMmYyyy.as_str(), "DD-MM-YYYY");
    assert_eq!(DateFormat::DdDotMmDotYyyy.as_str(), "DD.MM.YYYY");
    assert_eq!(DateFormat::from_name("DD.MM.YYYY"), DateFormat::DdDotMmDotYyyy);
    assert_eq!(DateFormat::from_name("dd.mm.yyyy"), DateFormat::YyyyMmDd);
    assert_eq!(DateFormat::default(), DateFormat::YyyyMmDd);
}

#[test]
fn iso_format_leaves_any_input_unchanged() {
    for s in ["2026-03-08", "", "-", "a-b-c-d", "--", "2026/03/08", "x-y-z"] {
        assert_eq!(DateFormat::YyyyMmDd.format_date(s), s);
    }
}

#[test]
fn date_format_edge_cases() {
    assert_eq!(DateFormat::DdMmYyyy.format_date("--"), "--");
    assert_eq!(DateFormat::DdDotMmDotYyyy.format_date("--"), "..");
    assert_eq!(DateFormat::DdDotMmDotYyyy.format_date("a-b-c-d"), "a-b-c-d");
    assert_eq!(DateFormat::YyyyDotMmDotDd.format_date(""), "");
    assert_eq!(DateFormat::DdMmYyyy.format_date("2026-12-31"), "31-12-2026");
}

#[test]
fn day_first_format_twice_gives_back_the_input() {
    for s in ["2026-03-08", "not-a-date", "a-b", "--", "x-y-z-w", ""] {
        let once = DateFormat::DdMmYyyy.format_date(s);
        assert_eq!(DateFormat::DdMmYyyy.format_date(&once), s);
    }
}
