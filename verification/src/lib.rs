//! Utilities for raising readable errors and indenting text.
//!
//! The [`error`] module builds error values whose rendered message can
//! carry the source location that raised them, and offers helpers for
//! turning missing optional values into such errors.  The [`text`]
//! module indents every non-empty line of a string by a fixed number of
//! spaces.

pub mod error;
pub mod text;
