//! Torrent files: the typed metadata, how it is read from a bencode
//! document, and the hash that names the torrent.

pub mod document;
pub mod laws;
pub mod model;
pub mod reader;
pub mod torrent;
pub mod writer;
