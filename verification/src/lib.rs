//! Parsing and canonical rendering of decentralized identifiers (DIDs).
//!
//! A DID text has a method, colon-separated identifier segments,
//! semicolon-separated parameters, slash-separated path segments, an optional
//! query and an optional fragment:
//!
//! ```text
//! did-url      = "did:" method 1*(":" id-segment) *param *("/" path-segment)
//!                ["?" query] ["#" fragment]
//! method       = 1*(lower-alpha / digit)
//! id-segment   = *(idchar / pct-encoded)
//! param        = ";" param-name ["=" param-value]
//! param-name   = 1*idchar
//! param-value  = *(idchar / pct-encoded)
//! path-segment = 1*(idchar / pct-encoded / ":")
//! query        = *(any char but "#")
//! fragment     = *(any char)
//! idchar       = alpha / digit / "." / "-" / "_"
//! pct-encoded  = "%" hex hex
//! ```
//!
//! [`DID::parse`] turns such a text into a [`DID`], [`DID::to_string`] turns a
//! [`DID`] back into text, and the two are inverse to each other on
//! well-formed values. An identifier segment may be empty (`did:m::x` has the
//! segments `""` and `"x"`); at least one segment is required.
pub mod chars;
pub mod did;
pub mod error;
pub mod grammar;
pub mod laws;
pub mod lemmas;
pub mod model;
pub mod pairs;

pub use crate::chars::Token;
pub use crate::did::{pairs_to_parsed, DID};
pub use crate::error::ParseError;
pub use crate::pairs::{recognize, Pair, Pairs, Span};
