use local_share::upload::{resolve_collision, sanitize_file_name};

#[test]
fn upload_collision_first_suffix() {
    let existing = vec!["a.txt".to_string()];
    assert_eq!(resolve_collision(&existing, "a.txt"), "a(1).txt");
}

#[test]
fn upload_collision_second_suffix() {
    let existing = vec!["a.txt".to_string(), "a(1).txt".to_string()];
    assert_eq!(resolve_collision(&existing, "a.txt"), "a(2).txt");
}

#[test]
fn upload_no_collision_keeps_name() {
    let existing = vec!["b.txt".to_string()];
    assert_eq!(resolve_collision(&existing, "a.txt"), "a.txt");
}

#[test]
fn upload_collision_without_extension() {
    let existing = vec!["notes".to_string()];
    assert_eq!(resolve_collision(&existing, "notes"), "notes(1)");
}

#[test]
fn upload_collision_hidden_style_name() {
    // a leading dot is not an extension separator
    let existing = vec![".bashrc".to_string()];
    assert_eq!(resolve_collision(&existing, ".bashrc"), ".bashrc(1)");
}

#[test]
fn sanitize_keeps_plain_name() {
    assert_eq!(sanitize_file_name("report.pdf"), "report.pdf");
}

#[test]
fn sanitize_strips_directories() {
    assert_eq!(sanitize_file_name("dir/sub/name.txt"), "name.txt");
}

#[test]
fn sanitize_rejects_empty_and_relative() {
    assert_eq!(sanitize_file_name(""), "uploaded_file");
    assert_eq!(sanitize_file_name("a/.."), "uploaded_file");
    assert_eq!(sanitize_file_name("."), "uploaded_file");
    assert_eq!(sanitize_file_name("dir/"), "dir");
}
