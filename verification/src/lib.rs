//! Session management and path safety for a small directory-sharing HTTP
//! service: chunked uploads into a root directory, and listing and retrieval
//! of the files below it.
//!
//! The library takes the decisions and leaves the file and network work to
//! its caller. [`upload`] plans an upload, opens its session, decides what
//! each write request adds, and ends the session; [`session`] and [`table`]
//! hold the state behind it. [`download`] names the directory or file that
//! a request asks for, and [`path`] makes sure that nothing outside the
//! served directory is ever named. [`config`] holds what the service was
//! started with.

pub mod config;
pub mod download;
pub mod error;
pub mod ident;
pub mod path;
pub mod session;
pub mod table;
pub mod text;
pub mod upload;
