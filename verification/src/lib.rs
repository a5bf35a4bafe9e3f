//! Core of a local-network file-sharing server: path containment for
//! untrusted request paths, directory listing, an incrementally emitted ZIP
//! archive stream, upload name sanitizing and collision suffixing, the
//! Basic-auth gate decision, and the small pure helpers around them. A thin
//! transport layer performs the HTTP and filesystem work around this crate.

pub mod archive;
pub mod auth;
pub mod error;
pub mod extract;
pub mod handlers;
pub mod html;
pub mod listing;
pub mod net;
pub mod paths;
pub mod qr;
pub mod server;
pub mod strutil;
pub mod upload;
