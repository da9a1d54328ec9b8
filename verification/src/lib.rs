//! Rule-driven renaming of files.
//!
//! Two parts do the work, and meet only in the caller:
//!
//! - [`replacer`] merges any number of pattern and replacement pairs into one
//!   regular expression and applies it to a text in a single pass. Which rule
//!   fired in a match is read off the tag of the group that took part, and the
//!   output is put together by [`splice`].
//! - [`split`] splits a file name into stem and extension, and knows the
//!   extensions that are made of two segments.
//!
//! [`rename`] puts the two together: only the stem of a file name goes through
//! the rules. [`rules`] reads rules from arguments and from lines of text, and
//! [`engine`] states what is taken from the `regex` crate.

pub mod chars;
pub mod digits;
pub mod engine;
pub mod logger;
pub mod rename;
pub mod replacer;
pub mod rules;
pub mod splice;
pub mod split;
