//! Verified parsing and validation of FASTQ records.
//!
//! The input is a line-oriented byte stream: each record is four lines
//! (`@id description`, sequence, `+` separator, quality).  Two parsers are
//! offered.  The strict reader ([`unfancy_parser::Reader`]) frames records by
//! line count alone and trims lazily at the accessors; the descriptive reader
//! ([`fancy_parser::FastqReader`]) splits the header into id and description,
//! enforces the separator marker, and reports errors that carry the text
//! assembled so far.  Opening files and all other I/O stay outside this
//! crate: callers hand the parsers plain bytes.

pub mod fancy_parser;
pub mod lines;
pub mod unfancy_parser;
pub mod validation;
