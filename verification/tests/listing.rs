use local_share::listing::{build_listing, DirEntry};

fn entry(name: &str, is_dir: bool, size: u64) -> DirEntry {
    DirEntry { name: name.to_string(), is_dir, size }
}

#[test]
fn listing_orders_directories_first_then_lexicographic() {
    let raw = vec![
        entry("zeta.txt", false, 10),
        entry("alpha", true, 0),
        entry("beta.txt", false, 3),
        entry("gamma", true, 0),
        entry("Beta.txt", false, 1),
    ];
    let sorted = build_listing(raw);
    let names: Vec<&str> = sorted.iter().map(|e| e.name.as_str()).collect();
    // directories first, each group in ascending codepoint order;
    // upper-case letters sort before lower-case ones
    assert_eq!(names, vec!["alpha", "gamma", "Beta.txt", "beta.txt", "zeta.txt"]);
    assert!(sorted[0].is_dir && sorted[1].is_dir);
    assert!(!sorted[2].is_dir && !sorted[3].is_dir && !sorted[4].is_dir);
}

#[test]
fn listing_skips_hidden_entries() {
    let raw = vec![
        entry(".hidden", false, 1),
        entry("visible.txt", false, 2),
        entry(".git", true, 0),
        entry("dir", true, 0),
    ];
    let sorted = build_listing(raw);
    let names: Vec<&str> = sorted.iter().map(|e| e.name.as_str()).collect();
    assert_eq!(names, vec!["dir", "visible.txt"]);
}

#[test]
fn listing_keeps_sizes() {
    let raw = vec![entry("a", false, 42)];
    let sorted = build_listing(raw);
    assert_eq!(sorted.len(), 1);
    assert_eq!(sorted[0].size, 42);
}

#[test]
fn listing_of_empty_is_empty() {
    let sorted = build_listing(Vec::new());
    assert!(sorted.is_empty());
}
