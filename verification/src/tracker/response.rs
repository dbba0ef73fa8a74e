//! The tracker's answer: peers, in the compact form of six bytes each.

use vstd::prelude::*;
use vstd::string::{StringExecFns, StringSliceAdditionalSpecFns};
use crate::bencode::grammar::decode;
use crate::bencode::model::{lookup, Bencode};
use crate::bencode::reader::parse;
use crate::bencode::value::BencodeValue;
use crate::decimal::{decimal_digits, lemma_decimal_digits, push_decimal};
use crate::errors::TrackerError;
use crate::text::{ascii_string, ascii_text, decimal_string, decimal_text};

verus! {

/// The length of one peer in the compact form.
pub const COMPACT_PEER_LENGTH: usize = 6;

/// A peer that the tracker named.
#[derive(Clone, Debug, PartialEq, Eq)]
pub struct Peer {
    /// The peer's address as text.
    pub ip: String,
    pub port: u16,
}

/// What the tracker answered.
#[derive(Clone, Debug, PartialEq, Eq)]
pub struct TrackerAnnounceResponse {
    /// Number of seconds the client should wait between regular requests.
    pub interval: u64,
    pub peers: Vec<Peer>,
}

/// The model of a [`Peer`].
pub struct PeerModel {
    pub ip: Seq<char>,
    pub port: u16,
}

/// The model of a [`TrackerAnnounceResponse`].
pub struct ResponseModel {
    pub interval: u64,
    pub peers: Seq<PeerModel>,
}

impl View for Peer {
    type V = PeerModel;

    open spec fn view(&self) -> PeerModel {
        PeerModel { ip: self.ip@, port: self.port }
    }
}

/// The models of peers in memory.
pub open spec fn peers_model(peers: Seq<Peer>) -> Seq<PeerModel> {
    Seq::new(peers.len(), |i: int| peers[i]@)
}

impl View for TrackerAnnounceResponse {
    type V = ResponseModel;

    open spec fn view(&self) -> ResponseModel {
        ResponseModel { interval: self.interval, peers: peers_model(self.peers@) }
    }
}

/// What an outcome stands for: the model of the answer, or the error.
pub open spec fn outcome_model<T: View>(r: Result<T, TrackerError>) -> Result<T::V, TrackerError> {
    match r {
        Ok(value) => Ok(value@),
        Err(e) => Err(e),
    }
}

/// The bytes of an IPv4 address in dotted decimal notation.
pub open spec fn dotted_quad(a: u8, b: u8, c: u8, d: u8) -> Seq<u8> {
    decimal_digits(a as nat) + seq![0x2eu8] + decimal_digits(b as nat) + seq![0x2eu8]
        + decimal_digits(c as nat) + seq![0x2eu8] + decimal_digits(d as nat)
}

/// The peer in the six bytes that start at `start`: four bytes of IPv4
/// address, then the port, most significant byte first.
pub open spec fn compact_peer(blob: Seq<u8>, start: int) -> PeerModel {
    PeerModel {
        ip: ascii_text(
            dotted_quad(blob[start], blob[start + 1], blob[start + 2], blob[start + 3]),
        ),
        port: (blob[start + 4] * 256 + blob[start + 5]) as u16,
    }
}

/// The peers of a compact list, in its order, or `MalformedPeerList` where
/// the length of the list is no multiple of six.
pub open spec fn compact_peers(blob: Seq<u8>) -> Result<Seq<PeerModel>, TrackerError> {
    if blob.len() % COMPACT_PEER_LENGTH as nat != 0 {
        Err(TrackerError::MalformedPeerList)
    } else {
        Ok(
            Seq::new(
                blob.len() / COMPACT_PEER_LENGTH as nat,
                |i: int| compact_peer(blob, i * COMPACT_PEER_LENGTH),
            ),
        )
    }
}

/// The key `interval`.
pub open spec fn interval_key() -> Seq<u8> {
    "interval".spec_bytes()
}

/// The key `peers`.
pub open spec fn peers_key() -> Seq<u8> {
    "peers".spec_bytes()
}

/// What the body of an answer says. The body must be a bencode dictionary
/// with an integer that is not negative under `interval` and something
/// under `peers`, else it is a `MalformedResponse`. The peers must be a
/// compact list, else they are a `MalformedPeerList`.
pub open spec fn response_of(body: Seq<u8>) -> Result<ResponseModel, TrackerError> {
    match decode(body) {
        Ok(Bencode::Dict(fields)) => match (
            lookup(fields, interval_key()),
            lookup(fields, peers_key()),
        ) {
            (Some(Bencode::Integer(interval)), Some(peers)) => if 0 <= interval <= u64::MAX {
                match peers {
                    Bencode::Bytes(blob) => match compact_peers(blob) {
                        Ok(peers) => Ok(ResponseModel { interval: interval as u64, peers }),
                        Err(e) => Err(e),
                    },
                    _ => Err(TrackerError::MalformedPeerList),
                }
            } else {
                Err(TrackerError::MalformedResponse)
            },
            _ => Err(TrackerError::MalformedResponse),
        },
        _ => Err(TrackerError::MalformedResponse),
    }
}

/// Whether a status is a client or server error.
pub open spec fn is_error_status(status: u16) -> bool {
    400 <= status <= 599
}

impl Peer {
    /// The peer as `address:port`.
    pub fn to_string(&self) -> (text: String)
        ensures
            text@ == self.ip@ + ":"@ + decimal_text(self.port as nat),
    {
        let mut text = self.ip.clone();
        text.append(":");
        let port = decimal_string(self.port as u128);
        text.append(port.as_str());
        text
    }
}

/// The address in the four bytes that start at `start`, as text.
fn address_text(blob: &[u8], start: usize) -> (text: String)
    requires
        start + 4 <= blob.len(),
    ensures
        text@ == ascii_text(
            dotted_quad(
                blob@[start as int],
                blob@[start + 1],
                blob@[start + 2],
                blob@[start + 3],
            ),
        ),
{
    let mut bytes: Vec<u8> = Vec::new();
    push_decimal(&mut bytes, blob[start] as u128);
    bytes.push(0x2e);
    push_decimal(&mut bytes, blob[start + 1] as u128);
    bytes.push(0x2e);
    push_decimal(&mut bytes, blob[start + 2] as u128);
    bytes.push(0x2e);
    push_decimal(&mut bytes, blob[start + 3] as u128);
    proof {
        let a = decimal_digits(blob@[start as int] as nat);
        let b = decimal_digits(blob@[start + 1] as nat);
        let c = decimal_digits(blob@[start + 2] as nat);
        let d = decimal_digits(blob@[start + 3] as nat);
        lemma_decimal_digits(blob@[start as int] as nat);
        lemma_decimal_digits(blob@[start + 1] as nat);
        lemma_decimal_digits(blob@[start + 2] as nat);
        lemma_decimal_digits(blob@[start + 3] as nat);
        assert(bytes@ =~= a + seq![0x2eu8] + b + seq![0x2eu8] + c + seq![0x2eu8] + d);
        assert forall|i: int| 0 <= i < bytes@.len() implies #[trigger] bytes@[i] < 0x80 by {
            let p = a.len();
            let q = p + 1 + b.len();
            let r = q + 1 + c.len();
            if i < p {
                assert(bytes@[i] == a[i]);
            } else if p < i < q {
                assert(bytes@[i] == b[i - p - 1]);
            } else if q < i < r {
                assert(bytes@[i] == c[i - q - 1]);
            } else if r < i {
                assert(bytes@[i] == d[i - r - 1]);
            }
        }
    }
    ascii_string(bytes.as_slice())
}

/// Reads a compact list of peers: records of six bytes, each four bytes of
/// IPv4 address and two bytes of port, most significant byte first. Fails
/// with `MalformedPeerList` where the length is no multiple of six.
pub fn decode_compact_peers(blob: &[u8]) -> (r: Result<Vec<Peer>, TrackerError>)
    ensures
        compact_peers(blob@) == match r {
            Ok(peers) => Ok(peers_model(peers@)),
            Err(e) => Err(e),
        },
{
    if blob.len() % COMPACT_PEER_LENGTH != 0 {
        return Err(TrackerError::MalformedPeerList);
    }
    let count: usize = blob.len() / COMPACT_PEER_LENGTH;
    let mut peers: Vec<Peer> = Vec::new();
    let mut i: usize = 0;
    while i < count
        invariant
            i <= count,
            count * COMPACT_PEER_LENGTH == blob.len(),
            peers.len() == i,
            forall|k: int|
                0 <= k < i ==> (#[trigger] peers[k])@ == compact_peer(
                    blob@,
                    k * COMPACT_PEER_LENGTH,
                ),
        decreases count - i,
    {
        let start: usize = i * COMPACT_PEER_LENGTH;
        let ip = address_text(blob, start);
        let port: u16 = blob[start + 4] as u16 * 256 + blob[start + 5] as u16;
        peers.push(Peer { ip, port });
        i = i + 1;
    }
    assert(peers_model(peers@) =~= compact_peers(blob@)->Ok_0);
    Ok(peers)
}

/// Reads the body of a tracker's answer.
pub fn parse_announce_response(body: &[u8]) -> (r: Result<TrackerAnnounceResponse, TrackerError>)
    ensures
        response_of(body@) == outcome_model(r),
{
    let doc = match parse(body) {
        Ok(doc) => doc,
        Err(_) => {
            return Err(TrackerError::MalformedResponse);
        },
    };
    let fields = match &doc {
        BencodeValue::Dict(fields) => fields,
        _ => {
            return Err(TrackerError::MalformedResponse);
        },
    };
    let interval: u64 = match fields.get("interval".as_bytes()) {
        Some(BencodeValue::Integer(interval)) => {
            if *interval < 0 {
                return Err(TrackerError::MalformedResponse);
            }
            *interval as u64
        },
        _ => {
            return Err(TrackerError::MalformedResponse);
        },
    };
    match fields.get("peers".as_bytes()) {
        None => Err(TrackerError::MalformedResponse),
        Some(BencodeValue::ByteString(blob)) => match decode_compact_peers(blob.as_slice()) {
            Ok(peers) => Ok(TrackerAnnounceResponse { interval, peers }),
            Err(e) => Err(e),
        },
        Some(_) => Err(TrackerError::MalformedPeerList),
    }
}

/// Reads what an exchange with the tracker gave: a status of the classes
/// 4xx and 5xx is an `Http` error that carries status and body; with any
/// other status the body is read as the tracker's answer.
pub fn read_exchange(status: u16, body: Vec<u8>) -> (r: Result<
    TrackerAnnounceResponse,
    TrackerError,
>)
    ensures
        is_error_status(status) ==> (r matches Err(TrackerError::Http { status: s, body: b })
            && s == status && b@ == body@),
        !is_error_status(status) ==> response_of(body@) == outcome_model(r),
{
    if 400 <= status && status <= 599 {
        Err(TrackerError::Http { status, body })
    } else {
        parse_announce_response(body.as_slice())
    }
}

} // verus!
