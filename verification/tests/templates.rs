use get_clocked::templates::{sanitize_name, sanitize_marked, template_file_name};

#[test]
fn sanitize_normal_name() {
    assert_eq!(sanitize_name("My Template").unwrap(), "My_Template");
}

#[test]
fn sanitize_special_chars_only() {
    assert!(sanitize_name("!!!???").is_err());
}

#[test]
fn sanitize_empty() {
    assert!(sanitize_name("").is_err());
}

#[test]
fn sanitize_spaces_only() {
    assert_eq!(sanitize_name("   ").unwrap(), "___");
}

#[test]
fn sanitize_mixed() {
    assert_eq!(sanitize_name("Test!@#123").unwrap(), "Test123");
}

#[test]
fn sanitize_error_message() {
    assert_eq!(
        sanitize_name("!!!").unwrap_err(),
        "Template name must contain at least one alphanumeric character."
    );
}

#[test]
fn sanitize_keeps_unicode_letters() {
    assert_eq!(sanitize_name("Café Ü-1").unwrap(), "Café_Ü1");
}

#[test]
fn sanitize_output_holds_only_underscores_and_alphanumerics() {
    for name in ["a b!c", "  x  ", "ÅÄÖ 12", "tab\there", "dash-name_x"] {
        if let Ok(s) = sanitize_name(name) {
            assert!(s.chars().all(|c| c == '_' || c.is_alphanumeric()));
        }
    }
    assert_eq!(sanitize_name("dash-name_x").unwrap(), "dashnamex");
}

#[test]
fn sanitize_marked_follows_the_given_marks() {
    assert_eq!(sanitize_marked("ab c", &vec![true, false, false, true]).unwrap(), "a_c");
    assert!(sanitize_marked("ab", &vec![false, false]).is_err());
}

#[test]
fn template_file_names() {
    assert_eq!(template_file_name("Week Plan").unwrap(), "Week_Plan.json");
    assert!(template_file_name("???").is_err());
}
