use s3_tui::paths::{downloading_file_name, get_file_name, is_folder_key, path_components_of};

#[test]
fn file_name_is_last_component() {
    assert_eq!(get_file_name("photos/2024/cat.png"), Ok("cat.png"));
    assert_eq!(get_file_name("cat.png"), Ok("cat.png"));
}

#[test]
fn file_name_of_folder_key_is_empty() {
    assert_eq!(get_file_name("photos/"), Ok(""));
    assert_eq!(get_file_name(""), Ok(""));
}

#[test]
fn components_skip_empty_pieces() {
    assert_eq!(path_components_of("a//b/c/"), vec!["a".to_string(), "b".to_string(), "c".to_string()]);
    assert_eq!(path_components_of("/x"), vec!["x".to_string()]);
    assert!(path_components_of("").is_empty());
    assert!(path_components_of("///").is_empty());
}

#[test]
fn folder_keys_end_with_slash() {
    assert!(is_folder_key("docs/"));
    assert!(!is_folder_key("docs/readme.md"));
    assert!(!is_folder_key(""));
}

#[test]
fn downloading_name_adds_suffix_to_file_name() {
    assert_eq!(downloading_file_name("dir/sub/report.pdf"), "report.pdf.downloading");
    assert_eq!(downloading_file_name("plain"), "plain.downloading");
}
