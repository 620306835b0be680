//! Validation, conversion and formatting of International Standard Book Numbers.
//!
//! An identifier is accepted in its ten- or thirteen-digit writing, checked, and kept
//! in thirteen-digit form. From there it can be written back in either form, as a URN,
//! hyphenated, or in the style of a DOI.

pub mod checksum;
pub mod isbn;
pub mod shape;
