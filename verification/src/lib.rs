//! Parser for the log lines of a passive TCP/IP fingerprinting tool.
//!
//! Each line carries a bracketed timestamp, a module tag, two endpoints,
//! a subject marker, and a module-specific payload of `name=value` tags.
//! [`parse_line`] turns one line into a typed [`P0f`] record or a precise
//! [`Error`]; lines with an unknown module tag yield the `Unparsed` payload
//! instead of failing.

pub mod addr;
pub mod error;
pub mod laws;
pub mod parsers;
pub mod structs;
pub mod text;
pub mod time;

pub use error::Error;
pub use parsers::parse_line;
pub use structs::Endpoint;
pub use structs::P0f;
pub use structs::P0fModule;
pub use structs::Subject;
