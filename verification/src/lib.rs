//! Condensed structural maps of source trees.
//!
//! A map lists, for each file of a tree, the functions, types, members and
//! headings found in it and the modules it imports. The structural matches
//! come from tree-sitter; this library turns them into symbols and imports
//! ([`parser`]), renders them as fixed-column tables ([`render`]), gathers the
//! files of a scan into one report ([`formatter`]) and splices the report
//! into a document between two marker lines ([`splice`]).
//!
//! Every function is verified against a contract over sequences of
//! characters. What tree-sitter and the standard library compute is reached
//! through a few trusted declarations in [`languages`], [`parser`] and
//! [`text`], each of which says what it assumes.

pub mod text;
pub mod layout;
pub mod languages;
pub mod parser;
pub mod render;
pub mod formatter;
pub mod splice;
pub mod walk;
