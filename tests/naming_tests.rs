use orchestra_sync::naming::sanitize_folder_name;

#[test]
fn test_sanitize_folder_name() {
    assert_eq!(sanitize_folder_name("AC/DC"), "AC_DC");
    assert_eq!(sanitize_folder_name("What?"), "What_");
    assert_eq!(sanitize_folder_name("  Spaces  "), "Spaces");
    assert_eq!(sanitize_folder_name("Normal Name"), "Normal Name");
    assert_eq!(sanitize_folder_name(""), "_");
    assert_eq!(sanitize_folder_name("A:B*C"), "A_B_C");
}

#[test]
fn sanitize_trims_unicode_white_space_and_keeps_inner_text() {
    assert_eq!(sanitize_folder_name("\u{3000}\tBjörk\u{a0}"), "Björk");
    assert_eq!(sanitize_folder_name(" <|> "), "___");
    assert_eq!(sanitize_folder_name(" \n "), "_");
}
