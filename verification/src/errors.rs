//! The errors of the three protocol layers.

use vstd::prelude::*;

verus! {

/// A key that a torrent file must hold.
#[derive(Clone, Copy, Debug, PartialEq, Eq, Structural)]
pub enum FieldName {
    /// `info`, at the top of the document.
    Info,
    /// `piece length`, inside `info`.
    PieceLength,
}

/// Why bytes could not be read as bencode or as a torrent file.
#[derive(Clone, Copy, Debug, PartialEq, Eq, Structural)]
pub enum ParseError {
    /// The bytes break the bencode grammar at `offset`.
    MalformedEncoding { offset: usize },
    /// A key that must be there is not.
    MissingField(FieldName),
    /// A value is there and has the wrong shape.
    TypeMismatch,
    /// `info` holds both `length` and `files`.
    AmbiguousLayout,
    /// `info` holds neither `length` nor `files`.
    MissingLayout,
    /// `announce` or `name` is no UTF-8 text.
    InvalidUtf8,
}

/// What a result stands for: the model of what was read, or the error.
pub open spec fn result_model<T: View>(r: Result<T, ParseError>) -> Result<T::V, ParseError> {
    match r {
        Ok(value) => Ok(value@),
        Err(e) => Err(e),
    }
}

/// Why no peer id could be made.
#[derive(Clone, Copy, Debug, PartialEq, Eq, Structural)]
pub enum PeerIdError {
    /// What the client's version gives is longer than a peer id.
    PrefixTooLong,
}

/// Why no tracker query could be made.
#[derive(Clone, Copy, Debug, PartialEq, Eq, Structural)]
pub enum QueryError {
    /// More was downloaded than the torrent holds.
    NegativeRemaining,
    /// No peer id could be made.
    PrefixTooLong,
}

/// Why no announce could be made for a torrent.
#[derive(Clone, Copy, Debug, PartialEq, Eq, Structural)]
pub enum AnnounceError {
    /// The torrent file names no tracker.
    MissingAnnounce,
    /// More was downloaded than the torrent holds.
    NegativeRemaining,
    /// No peer id could be made.
    PrefixTooLong,
    /// The peer id that the cache holds is not twenty bytes long.
    PeerIdLength,
}

/// Why an announce gave no peers.
#[derive(Clone, Debug, PartialEq, Eq)]
pub enum TrackerError {
    /// The tracker answered with a client or server error.
    Http { status: u16, body: Vec<u8> },
    /// The peers are not a compact list of records of six bytes.
    MalformedPeerList,
    /// The answer is no bencode dictionary with an interval and peers.
    MalformedResponse,
    /// The tracker could not be reached, or did not answer in time.
    Network,
}

/// Why a received handshake was refused, or never came.
#[derive(Clone, Copy, Debug, PartialEq, Eq, Structural)]
pub enum HandshakeError {
    /// The message is not 68 bytes long.
    InvalidLength,
    /// The message does not open with the protocol's name behind its length.
    ProtocolStringMismatch,
    /// The peer answered for another torrent.
    InfoHashMismatch,
    /// The peer did not answer in time.
    IoTimeout,
}

} // verus!
