//! Bencode: the self-describing encoding of torrent files and tracker
//! responses. A document is an integer, a byte string, a list or a
//! dictionary keyed by byte strings.

pub mod grammar;
pub mod laws;
pub mod model;
pub mod reader;
pub mod value;
pub mod writer;
