//! Protocol core of a BitTorrent client.

pub mod args;
pub mod bencode;
pub mod decimal;
pub mod digest;
pub mod errors;
pub mod handshake;
pub mod metainfo;
pub mod peer_id;
pub mod peer_state;
pub mod text;
pub mod tracker;
