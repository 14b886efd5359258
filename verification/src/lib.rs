//! Ignore-file style path filtering.
//!
//! Rule texts (with `!` negation, `/` anchoring and trailing-`/`
//! directory-only markers) are compiled into [`Pattern`] values, grouped in
//! declaration order into a [`PatternSet`], and turned into a [`Matcher`]
//! that answers `matches(path, is_dir)` queries with last-true-match-wins
//! precedence. Glob compilation and raw glob matching are delegated to the
//! `globset` crate; everything around that engine is verified.

mod engine;
mod error;
mod matcher;
mod pathext;
mod pattern;

pub use error::Error;
pub use matcher::{Matcher, PatternSet};
pub use pattern::{Pattern, Prefix, RawPattern};
pub use pathext::{
    dedot, dedot_components, dedot_from, has_trailing_slash, is_empty, strip_prefix,
    to_normalized_string_lossy, PathExt,
};
