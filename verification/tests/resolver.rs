use local_share::error::AppError;
use local_share::paths::resolve;

#[test]
fn resolve_rejects_traversal() {
    let r = resolve("/srv/root", "../../etc");
    assert_eq!(r, Err(AppError::InvalidPath));
}

#[test]
fn resolve_rejects_traversal_status_is_400() {
    let r = resolve("/srv/root", "../../etc");
    match r {
        Err(e) => assert_eq!(e.status_code(), 400),
        Ok(_) => panic!("traversal must be rejected"),
    }
}

#[test]
fn resolve_rejects_embedded_dotdot() {
    assert_eq!(resolve("/r", "docs/../secret"), Err(AppError::InvalidPath));
}

#[test]
fn resolve_rejects_dotdot_substring_in_name() {
    // documented limitation of the textual check: a legitimate name
    // containing ".." is rejected as well
    assert_eq!(resolve("/r", "a..b"), Err(AppError::InvalidPath));
}

#[test]
fn resolve_joins_under_root() {
    assert_eq!(resolve("/srv/root", "docs/a.txt").unwrap(), "/srv/root/docs/a.txt");
}

#[test]
fn resolve_strips_one_leading_slash() {
    assert_eq!(resolve("/r", "/x/y").unwrap(), "/r/x/y");
}

#[test]
fn resolve_empty_request_is_root() {
    assert_eq!(resolve("/srv/root", "").unwrap(), "/srv/root");
}

#[test]
fn resolved_path_stays_below_root() {
    let root = "/srv/root";
    for req in ["a", "a/b/c", "/z", ""] {
        let p = resolve(root, req).unwrap();
        assert!(p == root || p.starts_with("/srv/root/"));
    }
}
