use get_clocked::drafts::{
    export_step, ExportAction, ExportEvent, categories_to_save, check_template_save, draft_categories, folder_label, format_as_tsv, is_blank,
    value_suggestions,
};
use get_clocked::model::CategoryDefinition;
use get_clocked::export::WorkEntry;

fn pair(k: &str, v: &str) -> (String, String) {
    (k.to_string(), v.to_string())
}

#[test]
fn drafts_keep_pairs_with_keys() {
    let kept = draft_categories(&vec![pair("A", "1"), pair("", "2"), pair("B", "")]);
    assert_eq!(kept, vec![pair("A", "1"), pair("B", "")]);
}

#[test]
fn tsv_for_the_clipboard() {
    let entries = vec![
        WorkEntry { hours_text: format!("{:.1}", 7.5), categories: vec![pair("P", "x"), pair("T", "y")] },
        WorkEntry { hours_text: format!("{:.1}", 1.0), categories: vec![pair("T", "z")] },
    ];
    assert_eq!(
        format_as_tsv(&entries, "2026-03-08"),
        "Date\tP\tT\tHours\n2026-03-08\tx\ty\t7.5\n2026-03-08\t\tz\t1.0"
    );
}

#[test]
fn tsv_without_entries() {
    assert_eq!(format_as_tsv(&[], "d"), "Date\tHours");
}

#[test]
fn template_save_checks() {
    assert_eq!(check_template_save("  \t", "f").unwrap_err(), "Template name is required.");
    assert_eq!(
        check_template_save("Plan", "").unwrap_err(),
        "Template folder is not set. Configure it in Settings."
    );
    assert!(check_template_save(" Plan ", "f").is_ok());
    assert!(is_blank(""));
    assert!(!is_blank(" a "));
}

#[test]
fn categories_saved_from_drafts() {
    let drafts = vec![
        ("Project".to_string(), vec!["A".to_string(), "".to_string(), "B".to_string()]),
        ("   ".to_string(), vec!["x".to_string()]),
        ("Task".to_string(), vec![]),
    ];
    let cats = categories_to_save(&drafts);
    assert_eq!(cats.len(), 2);
    assert_eq!(cats[0].name, "Project");
    assert_eq!(cats[0].values, vec!["A", "B"]);
    assert_eq!(cats[1].name, "Task");
    assert!(cats[1].values.is_empty());
}

#[test]
fn suggestions_come_from_the_first_matching_definition() {
    let defs = vec![
        CategoryDefinition { name: "Project".to_string(), values: vec!["A".to_string(), "B".to_string()] },
        CategoryDefinition { name: "Project".to_string(), values: vec!["C".to_string()] },
    ];
    assert_eq!(value_suggestions(&defs, "Project"), vec!["A", "B"]);
    assert!(value_suggestions(&defs, "Task").is_empty());
}

#[test]
fn folder_labels() {
    assert_eq!(folder_label(""), "Not set");
    assert_eq!(folder_label("/tmp/x"), "/tmp/x");
}

fn report(a: ExportAction) -> String {
    match a {
        ExportAction::Report(m) => m,
        _ => panic!("expected a report"),
    }
}

#[test]
fn export_steps() {
    assert_eq!(report(export_step(true, "/out", ExportEvent::Requested)), "No entries to export.");
    match export_step(false, "/out", ExportEvent::Requested) {
        ExportAction::Export { folder, remember } => {
            assert_eq!(folder, "/out");
            assert!(!remember);
        }
        _ => panic!("expected an export"),
    }
    assert!(matches!(export_step(false, "", ExportEvent::Requested), ExportAction::PickFolder));
    match export_step(false, "", ExportEvent::FolderPicked(Some("/p".to_string()))) {
        ExportAction::Export { folder, remember } => {
            assert_eq!(folder, "/p");
            assert!(remember);
        }
        _ => panic!("expected an export"),
    }
    assert_eq!(report(export_step(false, "", ExportEvent::FolderPicked(None))), "No folder selected.");
    assert_eq!(report(export_step(false, "", ExportEvent::PickerFailed)), "Could not open folder picker.");
    assert_eq!(report(export_step(false, "/o", ExportEvent::Exported)), "Exported!");
    assert_eq!(
        report(export_step(false, "/o", ExportEvent::ExportFailed("boom".to_string()))),
        "Export failed: boom"
    );
    assert_eq!(
        report(export_step(false, "/o", ExportEvent::ArgumentsFailed("bad".to_string()))),
        "Error: bad"
    );
}

#[test]
fn unicode_whitespace_is_blank() {
    assert!(is_blank("\u{3000}\u{00A0}\u{2028}\t"));
    assert!(!is_blank("\u{200B}"));
}
