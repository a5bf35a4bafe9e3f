use local_share::error::{AppError, FsErrorKind};
use local_share::handlers::{plan_download, plan_list, DownloadPlan};
use local_share::net::build_connection_url;
use local_share::server::{max_upload_bytes, AppState};

#[test]
fn url_plain_http() {
    let url = build_connection_url(false, "192.168.1.2", 3000, None, None, false);
    assert_eq!(url, "http://192.168.1.2:3000");
}

#[test]
fn url_https_with_credentials() {
    let url = build_connection_url(true, "10.0.0.5", 8443, Some("u"), Some("p"), true);
    assert_eq!(url, "https://u:p@10.0.0.5:8443");
}

#[test]
fn url_credentials_left_out_when_not_included() {
    let url = build_connection_url(false, "h", 80, Some("u"), Some("p"), false);
    assert_eq!(url, "http://h:80");
}

#[test]
fn url_credentials_need_both_parts() {
    let url = build_connection_url(false, "h", 80, Some("u"), None, true);
    assert_eq!(url, "http://h:80");
}

#[test]
fn error_status_codes() {
    assert_eq!(AppError::NotFound.status_code(), 404);
    assert_eq!(AppError::PermissionDenied.status_code(), 403);
    assert_eq!(AppError::InvalidPath.status_code(), 400);
    assert_eq!(AppError::InternalServerError("boom".to_string()).status_code(), 500);
}

#[test]
fn error_client_messages_are_generic() {
    let e = AppError::InternalServerError("secret path /etc/shadow".to_string());
    assert_eq!(e.client_message(), "Error interno del servidor");
    assert_eq!(AppError::NotFound.client_message(), "Recurso no encontrado");
}

#[test]
fn error_from_fs_kind() {
    assert_eq!(AppError::from_fs_error(FsErrorKind::NotFound, String::new()), AppError::NotFound);
    assert_eq!(
        AppError::from_fs_error(FsErrorKind::PermissionDenied, String::new()),
        AppError::PermissionDenied
    );
    assert_eq!(
        AppError::from_fs_error(FsErrorKind::Other, "disk".to_string()),
        AppError::InternalServerError("disk".to_string())
    );
}

#[test]
fn upload_ceiling_in_bytes() {
    assert_eq!(max_upload_bytes(10), Some(10 * 1024 * 1024));
    assert_eq!(max_upload_bytes(u64::MAX), None);
}

#[test]
fn app_state_holds_root_and_ceiling() {
    let s = AppState::new("/srv/root".to_string(), 10).unwrap();
    assert_eq!(s.base_path, "/srv/root");
    assert_eq!(s.max_upload_size, 10 * 1024 * 1024);
}

#[test]
fn plan_list_missing_is_not_found() {
    let r = plan_list("/srv/root", "missing", false);
    match r {
        Err(e) => assert_eq!(e.status_code(), 404),
        Ok(_) => panic!("missing path must be NotFound"),
    }
}

#[test]
fn plan_list_traversal_is_rejected_before_existence() {
    // the textual check decides alone: whatever the filesystem would say,
    // the request is refused with 400
    for exists in [false, true] {
        let r = plan_list("/srv/root", "../../etc", exists);
        match r {
            Err(e) => assert_eq!(e.status_code(), 400),
            Ok(_) => panic!("traversal must be rejected"),
        }
    }
}

#[test]
fn plan_download_directory_streams_zip() {
    let r = plan_download("/srv/root", "docs", true, true).unwrap();
    match r {
        DownloadPlan::StreamArchive { full_path, dir_name, zip_file_name, content_disposition } => {
            assert_eq!(full_path, "/srv/root/docs");
            assert_eq!(dir_name, "docs");
            assert_eq!(zip_file_name, "docs.zip");
            assert_eq!(content_disposition, "attachment; filename=\"docs.zip\"");
        }
        DownloadPlan::ServeFile { .. } => panic!("directory must stream an archive"),
    }
}

#[test]
fn plan_download_file_is_served_directly() {
    let r = plan_download("/srv/root", "docs/a.txt", true, false).unwrap();
    match r {
        DownloadPlan::ServeFile { full_path } => assert_eq!(full_path, "/srv/root/docs/a.txt"),
        DownloadPlan::StreamArchive { .. } => panic!("file must be served directly"),
    }
}

#[test]
fn plan_download_directory_with_trailing_slash_keeps_its_name() {
    let r = plan_download("/srv/root", "docs/", true, true).unwrap();
    match r {
        DownloadPlan::StreamArchive { dir_name, zip_file_name, .. } => {
            assert_eq!(dir_name, "docs");
            assert_eq!(zip_file_name, "docs.zip");
        }
        DownloadPlan::ServeFile { .. } => panic!("directory must stream an archive"),
    }
}

#[test]
fn plan_succeeds_on_existing_clean_paths() {
    assert!(plan_list("/srv/root", "docs", true).is_ok());
    assert!(plan_download("/srv/root", "docs/a.txt", true, false).is_ok());
}
