//! Parsing, formatting, and lexicographic comparison of version strings.
//!
//! A version string has up to three dot-separated decimal components,
//! `major.minor.patch`; omitted trailing components default to zero.
//! Comparison of two version strings is plain lexicographic ordering of
//! their characters, never numeric.

pub mod compare;
pub mod digits;
pub mod order;
pub mod split;
pub mod version;

pub use compare::Cmp;
pub use compare::compare_version;
pub use digits::parse_u32;
pub use version::ParseError;
pub use version::Version;
