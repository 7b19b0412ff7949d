//! Platform helpers: the macOS bundle model and encoded image bytes.
pub mod image;
pub mod mac;
