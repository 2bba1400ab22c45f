//! Version-availability annotations and the build conditions they stand for.
//!
//! A declaration may be marked with the range of API levels in which it
//! exists: `#[available(added = 16, removed = 18)]`. This crate reads such a
//! mark, decides which of the known levels the range covers, and writes the
//! condition under which the declaration is to be compiled: one flag per
//! covered level, joined by a logical OR.
//!
//! - [`levels`] holds the registry of known levels and their names.
//! - [`range`] holds the availability range and the levels it covers.
//! - [`condition`] turns a range into the condition of a `cfg` attribute.
//! - [`tokens`] and [`args`] read the arguments of an annotation.
//! - [`guard`] decides whether an annotation asks for a guard.
//! - [`attribute`] decides what becomes of one attribute.
//! - [`tree`] rewrites the annotations of a whole tree.
//! - [`driver`] handles one annotated declaration.
//! - [`decimal`] writes and reads decimal numerals.
//!
//! # What is proved
//!
//! Every function of this crate is verified against its contract, with one
//! exception: [`tokens`] holds the one function that is believed, not proved.
//! It has the text of an argument list read as Rust tokens by `proc-macro2`
//! and `syn`, and its contract only names what comes back. So whatever is
//! stated here of a text is stated of the tokens that the text reads as; what
//! is stated of tokens, ranges, conditions, attributes and trees is proved
//! outright.

pub mod args;
pub mod attribute;
pub mod condition;
pub mod decimal;
pub mod driver;
pub mod guard;
pub mod levels;
pub mod range;
pub mod tokens;
pub mod tree;

pub use crate::args::{parse_args, parse_tokens, ParseError};
pub use crate::attribute::{Attribute, Delimiter, Rewrite};
pub use crate::condition::Condition;
pub use crate::driver::available;
pub use crate::guard::guard_for;
pub use crate::levels::{api_levels, level_cfg};
pub use crate::range::Availability;
pub use crate::tokens::ArgToken;
pub use crate::tree::{rewrite_tree, Node, NodeKind};
