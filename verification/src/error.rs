//! Error taxonomy of the server core: the four semantic error kinds and their
//! mapping to HTTP status codes and client-facing messages.

use vstd::prelude::*;

verus! {

/// The error kinds a handler can surface, mapped at the transport boundary to
/// an HTTP status code. `InternalServerError` carries a server-side message
/// that is logged but never shown to the client.
#[derive(Debug, Clone, PartialEq, Eq)]
pub enum AppError {
    NotFound,
    PermissionDenied,
    InternalServerError(String),
    InvalidPath,
}

/// Model of the filesystem error kinds the core distinguishes; the transport
/// layer converts a `std::io::ErrorKind` into one of these.
#[derive(Debug, Clone, Copy, PartialEq, Eq, Structural)]
pub enum FsErrorKind {
    NotFound,
    PermissionDenied,
    Other,
}

impl AppError {
    /// The HTTP status code this error maps to.
    pub open spec fn spec_status_code(&self) -> u16 {
        match self {
            AppError::NotFound => 404,
            AppError::PermissionDenied => 403,
            AppError::InvalidPath => 400,
            AppError::InternalServerError(_) => 500,
        }
    }

    pub fn status_code(&self) -> (r: u16)
        ensures
            r == self.spec_status_code(),
    {
        match self {
            AppError::NotFound => 404,
            AppError::PermissionDenied => 403,
            AppError::InvalidPath => 400,
            AppError::InternalServerError(_) => 500,
        }
    }

    /// The generic message shown to the client; never the internal cause.
    pub open spec fn spec_client_message(&self) -> Seq<char> {
        match self {
            AppError::NotFound => "Recurso no encontrado"@,
            AppError::PermissionDenied => "Permiso denegado"@,
            AppError::InvalidPath => "Ruta inválida o insegura"@,
            AppError::InternalServerError(_) => "Error interno del servidor"@,
        }
    }

    pub fn client_message(&self) -> (r: &'static str)
        ensures
            r@ == self.spec_client_message(),
    {
        match self {
            AppError::NotFound => "Recurso no encontrado",
            AppError::PermissionDenied => "Permiso denegado",
            AppError::InvalidPath => "Ruta inválida o insegura",
            AppError::InternalServerError(_) => "Error interno del servidor",
        }
    }

    /// Conversion that lets filesystem failures surface as the matching error
    /// kind, as the handler boundary requires: missing paths become `NotFound`,
    /// denied access becomes `PermissionDenied`, everything else is internal.
    pub fn from_fs_error(kind: FsErrorKind, detail: String) -> (r: AppError)
        ensures
            kind == FsErrorKind::NotFound ==> r == AppError::NotFound,
            kind == FsErrorKind::PermissionDenied ==> r == AppError::PermissionDenied,
            kind == FsErrorKind::Other ==> r == AppError::InternalServerError(detail),
    {
        match kind {
            FsErrorKind::NotFound => AppError::NotFound,
            FsErrorKind::PermissionDenied => AppError::PermissionDenied,
            FsErrorKind::Other => AppError::InternalServerError(detail),
        }
    }
}

} // verus!
