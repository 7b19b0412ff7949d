//! The per-platform discovery logic: each module turns what its platform's
//! native sources hold into [`crate::common::App`] records.
pub mod linux;
pub mod mac;
pub mod windows;
