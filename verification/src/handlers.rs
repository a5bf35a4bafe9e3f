//! The pure decision halves of the HTTP handlers: each takes the request
//! inputs plus the facts the transport layer learned from the filesystem
//! (existence, kind) and decides exactly what to serve or which error to
//! return. The transport layer performs the I/O around these decisions.

use vstd::prelude::*;
use crate::error::AppError;
use crate::paths::{is_descendant, joined, resolve, strip_one_slash};
use crate::strutil::{has_dotdot, last_segment, str_last_segment, str_without_trailing, without_trailing};

verus! {

/// What a download request resolves to.
pub enum DownloadPlan {
    /// The path names a file: serve its bytes with a guessed content type.
    ServeFile { full_path: String },
    /// The path names a directory: stream a ZIP archive of it.
    StreamArchive {
        full_path: String,
        dir_name: String,
        zip_file_name: String,
        content_disposition: String,
    },
}

/// The archive root name of a directory path: its final segment, with
/// trailing separators dropped first; a fixed fallback when nothing is left
/// (the filesystem root).
pub open spec fn spec_dir_name(full: Seq<char>) -> Seq<char> {
    let trimmed = without_trailing(full, '/');
    if last_segment(trimmed).len() == 0 {
        "download"@
    } else {
        last_segment(trimmed)
    }
}

pub open spec fn spec_zip_file_name(full: Seq<char>) -> Seq<char> {
    spec_dir_name(full) + ".zip"@
}

pub open spec fn spec_content_disposition(full: Seq<char>) -> Seq<char> {
    "attachment; filename=\""@ + spec_zip_file_name(full) + "\""@
}

/// The resolved absolute path of a request under `root`.
pub open spec fn resolved_path(root: Seq<char>, request: Seq<char>) -> Seq<char> {
    joined(root, strip_one_slash(request))
}

fn dir_name_of(full_path: &str) -> (r: String)
    ensures
        r@ == spec_dir_name(full_path@),
{
    let trimmed = str_without_trailing(full_path, '/');
    let seg = str_last_segment(trimmed.as_str());
    if seg.as_str().unicode_len() == 0 {
        "download".to_owned()
    } else {
        seg
    }
}

/// Decides a download request. `exists` and `is_dir` are what the filesystem
/// reported for the resolved path.
///
/// A traversal sequence in the request is rejected before anything else, so a
/// caller that consults the filesystem only after this returns `Ok` never
/// touches a path outside the root. A missing path is `NotFound`; a directory
/// is streamed as a ZIP named after it; a file is served directly.
pub fn plan_download(root: &str, request_path: &str, exists: bool, is_dir: bool) -> (r: Result<
    DownloadPlan,
    AppError,
>)
    ensures
        has_dotdot(request_path@) <==> r == Err::<DownloadPlan, AppError>(AppError::InvalidPath),
        !has_dotdot(request_path@) && !exists ==> r == Err::<DownloadPlan, AppError>(
            AppError::NotFound,
        ),
        !has_dotdot(request_path@) && exists ==> r is Ok,
        r matches Ok(plan) ==> {
            &&& exists
            &&& !has_dotdot(request_path@)
            &&& is_descendant(root@, resolved_path(root@, request_path@))
            &&& match plan {
                DownloadPlan::ServeFile { full_path } => !is_dir && full_path@ == resolved_path(
                    root@,
                    request_path@,
                ),
                DownloadPlan::StreamArchive { full_path, dir_name, zip_file_name, content_disposition } => {
                    &&& is_dir
                    &&& full_path@ == resolved_path(root@, request_path@)
                    &&& dir_name@ == spec_dir_name(full_path@)
                    &&& zip_file_name@ == spec_zip_file_name(full_path@)
                    &&& content_disposition@ == spec_content_disposition(full_path@)
                },
            }
        },
{
    let full_path = match resolve(root, request_path) {
        Ok(p) => p,
        Err(e) => {
            return Err(e);
        },
    };
    if !exists {
        return Err(AppError::NotFound);
    }
    if is_dir {
        let dir_name = dir_name_of(full_path.as_str());
        let mut zip_file_name = dir_name_of(full_path.as_str());
        zip_file_name.append(".zip");
        let mut content_disposition = "attachment; filename=\"".to_owned();
        content_disposition.append(zip_file_name.as_str());
        content_disposition.append("\"");
        Ok(
            DownloadPlan::StreamArchive {
                full_path,
                dir_name,
                zip_file_name,
                content_disposition,
            },
        )
    } else {
        Ok(DownloadPlan::ServeFile { full_path })
    }
}

/// Decides a listing request: the resolved directory to read, or the error.
pub fn plan_list(root: &str, request_path: &str, exists: bool) -> (r: Result<String, AppError>)
    ensures
        has_dotdot(request_path@) <==> r == Err::<String, AppError>(AppError::InvalidPath),
        !has_dotdot(request_path@) && !exists ==> r == Err::<String, AppError>(AppError::NotFound),
        !has_dotdot(request_path@) && exists ==> r is Ok,
        r matches Ok(full) ==> {
            &&& exists
            &&& !has_dotdot(request_path@)
            &&& full@ == resolved_path(root@, request_path@)
            &&& is_descendant(root@, full@)
        },
{
    let full_path = match resolve(root, request_path) {
        Ok(p) => p,
        Err(e) => {
            return Err(e);
        },
    };
    if !exists {
        return Err(AppError::NotFound);
    }
    Ok(full_path)
}

/// Decides an upload request: the resolved target directory, or the error.
pub fn plan_upload(root: &str, query_path: &str, exists: bool) -> (r: Result<String, AppError>)
    ensures
        has_dotdot(query_path@) <==> r == Err::<String, AppError>(AppError::InvalidPath),
        !has_dotdot(query_path@) && !exists ==> r == Err::<String, AppError>(AppError::NotFound),
        !has_dotdot(query_path@) && exists ==> r is Ok,
        r matches Ok(full) ==> {
            &&& exists
            &&& !has_dotdot(query_path@)
            &&& full@ == resolved_path(root@, query_path@)
            &&& is_descendant(root@, full@)
        },
{
    plan_list(root, query_path, exists)
}

} // verus!
