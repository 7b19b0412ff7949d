//! Discovery and normalisation of installed desktop applications.
//!
//! Each platform's native descriptors (XDG `.desktop` entries, macOS
//! bundles, Windows shortcuts) are read into one [`App`] record; scans over
//! several roots are reconciled without duplicates; and [`AppInfoContext`]
//! keeps the last scan with single-flight refreshes. The library decides;
//! walking directories, reading files and asking the operating system is
//! left to its caller, who hands the results in as plain values.

pub mod api;
pub mod apps;
pub mod common;
pub mod platforms;
pub mod scan;
pub mod text;
pub mod utils;

pub use api::AppInfoContext;
pub use common::{App, AppError, SearchPath};
