//! The handshake that opens a connection to a peer: 68 bytes that name the
//! protocol, the torrent and the sender.

use vstd::prelude::*;
use vstd::string::StringSliceAdditionalSpecFns;
use crate::errors::HandshakeError;
use crate::metainfo::model::{InfoHash, PeerId};

verus! {

/// The bytes of a handshake.
pub type Handshake = [u8; 68];

/// What a peer says of itself in its handshake.
#[derive(Clone, Copy, Debug, PartialEq, Eq)]
pub struct PeerHandshake {
    pub info_hash: InfoHash,
    pub peer_id: PeerId,
}

/// The length of a handshake.
pub const HANDSHAKE_LENGTH: usize = 68;

/// The length of the protocol's name, which is the first byte of a
/// handshake.
pub const PROTOCOL_NAME_LENGTH: u8 = 19;

/// The protocol's name, `BitTorrent protocol`.
pub open spec fn protocol_name() -> Seq<u8> {
    "BitTorrent protocol".spec_bytes()
}

/// The handshake of a peer `peer_id` for the torrent `info_hash`: the
/// length of the protocol's name, the name, eight reserved bytes that are
/// zero, the hash and the peer's id.
pub open spec fn handshake_bytes(info_hash: Seq<u8>, peer_id: Seq<u8>) -> Seq<u8> {
    seq![PROTOCOL_NAME_LENGTH] + protocol_name() + Seq::new(8, |i: int| 0u8) + info_hash
        + peer_id
}

/// What a received message says, if it is a handshake: the hash and the
/// peer's id. The reserved bytes are not looked at.
pub open spec fn handshake_of(bytes: Seq<u8>) -> Result<(Seq<u8>, Seq<u8>), HandshakeError> {
    if bytes.len() != HANDSHAKE_LENGTH {
        Err(HandshakeError::InvalidLength)
    } else if bytes[0] != PROTOCOL_NAME_LENGTH || bytes.subrange(1, 20) != protocol_name() {
        Err(HandshakeError::ProtocolStringMismatch)
    } else {
        Ok((bytes.subrange(28, 48), bytes.subrange(48, 68)))
    }
}

/// The protocol's name has nineteen bytes.
pub proof fn lemma_protocol_name()
    ensures
        protocol_name().len() == 19,
{
    reveal_strlit("BitTorrent protocol");
    vstd::string::is_ascii_spec_bytes("BitTorrent protocol");
    assert(vstd::string::is_ascii("BitTorrent protocol"));
}

/// A handshake that was built says, when read, what it was built from.
pub proof fn law_handshake_round_trip(info_hash: Seq<u8>, peer_id: Seq<u8>)
    requires
        info_hash.len() == 20,
        peer_id.len() == 20,
    ensures
        handshake_of(handshake_bytes(info_hash, peer_id)) == Ok::<
            (Seq<u8>, Seq<u8>),
            HandshakeError,
        >((info_hash, peer_id)),
{
    lemma_protocol_name();
    let bytes = handshake_bytes(info_hash, peer_id);
    assert(bytes.subrange(1, 20) =~= protocol_name());
    assert(bytes.subrange(28, 48) =~= info_hash);
    assert(bytes.subrange(48, 68) =~= peer_id);
}

/// Builds the handshake of the peer `peer_id` for the torrent `info_hash`.
pub fn build_handshake(info_hash: &InfoHash, peer_id: &PeerId) -> (handshake: Handshake)
    ensures
        handshake@ == handshake_bytes(info_hash@, peer_id@),
{
    proof {
        lemma_protocol_name();
    }
    let name = "BitTorrent protocol".as_bytes();
    let mut handshake: Handshake = [0u8; 68];
    handshake[0] = PROTOCOL_NAME_LENGTH;
    let mut i: usize = 0;
    while i < 19
        invariant
            i <= 19,
            name@ == protocol_name(),
            name@.len() == 19,
            handshake@[0] == PROTOCOL_NAME_LENGTH,
            forall|k: int| 0 <= k < i ==> handshake@[1 + k] == name@[k],
            forall|k: int| 20 <= k < 68 ==> handshake@[k] == 0,
        decreases 19 - i,
    {
        handshake[1 + i] = name[i];
        i = i + 1;
    }
    let mut j: usize = 0;
    while j < 20
        invariant
            j <= 20,
            name@ == protocol_name(),
            name@.len() == 19,
            handshake@[0] == PROTOCOL_NAME_LENGTH,
            forall|k: int| 0 <= k < 19 ==> handshake@[1 + k] == name@[k],
            forall|k: int| 20 <= k < 28 ==> handshake@[k] == 0,
            forall|k: int| 0 <= k < j ==> handshake@[28 + k] == info_hash@[k],
            forall|k: int| 0 <= k < j ==> handshake@[48 + k] == peer_id@[k],
        decreases 20 - j,
    {
        handshake[28 + j] = info_hash[j];
        handshake[48 + j] = peer_id[j];
        j = j + 1;
    }
    assert(handshake@ =~= handshake_bytes(info_hash@, peer_id@)) by {
        let expected = handshake_bytes(info_hash@, peer_id@);
        assert forall|k: int| 0 <= k < 68 implies handshake@[k] == expected[k] by {
            if 1 <= k < 20 {
                assert(handshake@[1 + (k - 1)] == name@[k - 1]);
            } else if 28 <= k < 48 {
                assert(handshake@[28 + (k - 28)] == info_hash@[k - 28]);
            } else if 48 <= k {
                assert(handshake@[48 + (k - 48)] == peer_id@[k - 48]);
            }
        }
    }
    handshake
}

/// Copies twenty bytes of `bytes`, from `start` on, into an array.
fn copy_twenty(bytes: &[u8], start: usize) -> (copy: [u8; 20])
    requires
        start + 20 <= bytes.len(),
    ensures
        copy@ == bytes@.subrange(start as int, start + 20),
{
    let mut copy: [u8; 20] = [0u8; 20];
    let mut i: usize = 0;
    while i < 20
        invariant
            i <= 20,
            start + 20 <= bytes.len(),
            forall|k: int| 0 <= k < i ==> copy@[k] == bytes@[start + k],
        decreases 20 - i,
    {
        copy[i] = bytes[start + i];
        i = i + 1;
    }
    assert(copy@ =~= bytes@.subrange(start as int, start + 20));
    copy
}

/// Tells whether two runs of bytes are the same.
fn same_bytes(a: &[u8], b: &[u8]) -> (same: bool)
    ensures
        same == (a@ == b@),
{
    if a.len() != b.len() {
        return false;
    }
    let mut i: usize = 0;
    while i < a.len()
        invariant
            i <= a.len(),
            a.len() == b.len(),
            forall|k: int| 0 <= k < i ==> a@[k] == b@[k],
        decreases a.len() - i,
    {
        if a[i] != b[i] {
            return false;
        }
        i = i + 1;
    }
    assert(a@ =~= b@);
    true
}

/// Reads a received handshake. Fails with `InvalidLength` where the message
/// is not 68 bytes long, and with `ProtocolStringMismatch` where it does
/// not open with the byte 19 and the protocol's name.
pub fn parse_handshake(bytes: &[u8]) -> (r: Result<PeerHandshake, HandshakeError>)
    ensures
        handshake_of(bytes@) == match r {
            Ok(said) => Ok((said.info_hash@, said.peer_id@)),
            Err(e) => Err(e),
        },
{
    if bytes.len() != HANDSHAKE_LENGTH {
        return Err(HandshakeError::InvalidLength);
    }
    let name = "BitTorrent protocol".as_bytes();
    if bytes[0] != PROTOCOL_NAME_LENGTH || !same_bytes(
        vstd::slice::slice_subrange(bytes, 1, 20),
        name,
    ) {
        return Err(HandshakeError::ProtocolStringMismatch);
    }
    Ok(PeerHandshake { info_hash: copy_twenty(bytes, 28), peer_id: copy_twenty(bytes, 48) })
}

/// Reads the handshake that a peer answered with and holds it to the
/// torrent that was asked for. Fails as [`parse_handshake`] fails, and with
/// `InfoHashMismatch` where the peer names another torrent.
pub fn check_handshake(response: &[u8], expected: &InfoHash) -> (r: Result<
    PeerHandshake,
    HandshakeError,
>)
    ensures
        match handshake_of(response@) {
            Err(e) => r == Err::<PeerHandshake, HandshakeError>(e),
            Ok((info_hash, peer_id)) => if info_hash == expected@ {
                r matches Ok(said) && said.info_hash@ == info_hash && said.peer_id@ == peer_id
            } else {
                r == Err::<PeerHandshake, HandshakeError>(HandshakeError::InfoHashMismatch)
            },
        },
{
    let said = match parse_handshake(response) {
        Ok(said) => said,
        Err(e) => {
            return Err(e);
        },
    };
    if same_bytes(
        vstd::array::array_as_slice(&said.info_hash),
        vstd::array::array_as_slice(expected),
    ) {
        Ok(said)
    } else {
        Err(HandshakeError::InfoHashMismatch)
    }
}

} // verus!
