use local_share::html::generate_file_list_html;
use local_share::listing::DirEntry;

fn entry(name: &str, is_dir: bool, size: u64) -> DirEntry {
    DirEntry { name: name.to_string(), is_dir, size }
}

#[test]
fn page_links_directories_and_files_under_path() {
    let entries = vec![entry("sub", true, 0), entry("a.txt", false, 5)];
    let page = generate_file_list_html(&entries, "docs", 10 * 1024 * 1024);
    assert!(page.contains("href=\"/list/docs/sub\""));
    assert!(page.contains("href=\"/download/docs/sub\""));
    assert!(page.contains("href=\"/download/docs/a.txt\""));
    // rows appear in the given order
    let dir_pos = page.find("/list/docs/sub").unwrap();
    let file_pos = page.find("/download/docs/a.txt").unwrap();
    assert!(dir_pos < file_pos);
}

#[test]
fn page_at_root_has_no_prefix_and_no_parent_link() {
    let entries = vec![entry("a.txt", false, 5)];
    let page = generate_file_list_html(&entries, "", 1024);
    assert!(page.contains("href=\"/download/a.txt\""));
    assert!(!page.contains("Up one level"));
}

#[test]
fn page_below_root_has_parent_link() {
    let page = generate_file_list_html(&Vec::new(), "docs/sub", 1024);
    assert!(page.contains("Up one level"));
    assert!(page.contains("const currentPath = \"docs/sub\";"));
}

#[test]
fn page_shows_formatted_sizes() {
    let size: u64 = 123456;
    let entries = vec![entry("data.bin", false, size)];
    let page = generate_file_list_html(&entries, "", 10 * 1024 * 1024);
    let expected = humansize::format_size(size, humansize::DECIMAL);
    assert!(page.contains(&expected));
    let ceiling = humansize::format_size(10u64 * 1024 * 1024, humansize::DECIMAL);
    assert!(page.contains(&ceiling));
}
