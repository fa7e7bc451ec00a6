//! Parsing of the HTTP `Link` header field (RFC 8288) into a normalised list
//! of links.
//!
//! A header value is first tokenised into a tree of tagged [`Pair`]s, then
//! each link group is reduced by a [`LinkBuilder`]: reserved parameters
//! (`rel`, `anchor`, `title`) are reconciled, everything else is kept as an
//! ordinary parameter, and a `rel` value that names several relation types
//! yields one [`Link`] per type.
pub mod context;
pub mod error;
pub mod grammar;
pub mod header;
pub mod link;
pub mod param;
pub mod parser;
pub mod text;
pub mod uri;

pub use error::ParserError;
pub use grammar::{Pair, Rfc8288Parser, Rule};
pub use header::Header;
pub use link::{Link, Relation};
pub use param::{Encoding, Param, Value};
pub use parser::{parse, LinkBuilder};
pub use uri::UriRef;
