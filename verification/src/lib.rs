//! Locating byte patterns in binaries and rewriting 16-bit fields relative to
//! each match, driven by a declarative text configuration.
//!
//! - [`grammar`] reads the configuration text into sections of key-value items.
//! - [`config`] builds the validated configuration from them: the registry of
//!   applications and, for each, its chain of patches.
//! - [`signature`] compiles byte patterns with wildcards and finds them.
//! - [`patch_info`] reads one patch from the items of a section and applies
//!   it to a buffer.
//! - [`table`], [`text`] and [`error`] hold what the others share.
//!
//! The functions are verified against their contracts, which are stated over
//! the views of the data and the `spec` functions next to them. Two things
//! are taken on trust and marked as such: `String::push` in [`text`], and the
//! type `std::io::ErrorKind` in [`error`].

pub mod config;
pub mod error;
pub mod grammar;
pub mod patch_info;
pub mod signature;
pub mod table;
pub mod text;
