//! The first discovery pass for macOS: every `.app` folder of the
//! applications folder, with its icon found by searching the bundle.
pub mod mac;
