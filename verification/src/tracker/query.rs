//! The announce request: its parameters and its URL.

use vstd::prelude::*;
use vstd::string::StringExecFns;
use vstd::utf8::encode_utf8;
use crate::errors::{PeerIdError, QueryError};
use crate::metainfo::model::{layout_size, InfoHash, Torrent};
use crate::metainfo::torrent::{full_size, text_or};
use crate::peer_id::{get_or_create_peer_id, peer_id_outcome, PeerIdCache};
use crate::text::{decimal_string, decimal_text};

verus! {

/// Whether the form encoding leaves the byte `b` as it is: letters, digits
/// and `*`, `-`, `.`, `_`.
pub open spec fn is_unreserved(b: u8) -> bool {
    b == 0x2a || b == 0x2d || b == 0x2e || b == 0x5f || (0x30 <= b <= 0x39) || (0x41 <= b <= 0x5a)
        || (0x61 <= b <= 0x7a)
}

/// The upper-case hexadecimal digit for `n`, for `n` below sixteen.
pub open spec fn hex_digit(n: u8) -> char {
    if n < 10 {
        (0x30 + n) as char
    } else {
        (0x41 + (n - 10)) as char
    }
}

/// The form encoding of one byte: itself, `+` for a space, or `%` and two
/// hexadecimal digits.
pub open spec fn form_encoded_byte(b: u8) -> Seq<char> {
    if is_unreserved(b) {
        seq![b as char]
    } else if b == 0x20 {
        seq!['+']
    } else {
        seq!['%', hex_digit(b / 16), hex_digit(b % 16)]
    }
}

/// The `application/x-www-form-urlencoded` encoding of bytes.
pub open spec fn form_encoded(bytes: Seq<u8>) -> Seq<char>
    decreases bytes.len(),
{
    if bytes.len() == 0 {
        Seq::empty()
    } else {
        form_encoded(bytes.drop_last()) + form_encoded_byte(bytes.last())
    }
}

/// One parameter in a query string: name, `=`, value, each form-encoded
/// from its UTF-8 bytes.
pub open spec fn form_pair(pair: (Seq<char>, Seq<char>)) -> Seq<char> {
    form_encoded(encode_utf8(pair.0)) + seq!['='] + form_encoded(encode_utf8(pair.1))
}

/// Parameters as a query string: the pairs in their order, with `&` between
/// them.
pub open spec fn form_pairs(pairs: Seq<(Seq<char>, Seq<char>)>) -> Seq<char>
    decreases pairs.len(),
{
    if pairs.len() == 0 {
        Seq::empty()
    } else if pairs.len() == 1 {
        form_pair(pairs[0])
    } else {
        form_pairs(pairs.drop_last()) + seq!['&'] + form_pair(pairs.last())
    }
}

/// What parameters in memory stand for.
pub open spec fn query_model(query: Seq<(String, String)>) -> Seq<(Seq<char>, Seq<char>)> {
    Seq::new(query.len(), |i: int| (query[i].0@, query[i].1@))
}

/// The parameters of an announce, in the order in which they are sent.
pub open spec fn query_pairs(
    peer_id: Seq<char>,
    port: u16,
    downloaded: u64,
    uploaded: u64,
    left: nat,
) -> Seq<(Seq<char>, Seq<char>)> {
    seq![
        ("peer_id"@, peer_id),
        ("port"@, decimal_text(port as nat)),
        ("downloaded"@, decimal_text(downloaded as nat)),
        ("uploaded"@, decimal_text(uploaded as nat)),
        ("left"@, decimal_text(left)),
    ]
}

/// The URL of an announce: the tracker's URL, `?`, the parameters as a
/// query string, and the hash as one more parameter, form-encoded from its
/// raw bytes.
pub open spec fn announce_url_text(
    announce: Seq<char>,
    query: Seq<(Seq<char>, Seq<char>)>,
    info_hash: Seq<u8>,
) -> Seq<char> {
    announce + "?"@ + form_pairs(query) + "&info_hash="@ + form_encoded(info_hash)
}

/// Trusted: `url::form_urlencoded::byte_serialize`, its pieces collected
/// into one string. Each byte is written as the form encoding has it:
/// letters, digits and `*-._` as they are, a space as `+`, every other byte
/// as `%` and two upper-case hexadecimal digits.
#[verifier::external_body]
fn form_encode(bytes: &[u8]) -> (text: String)
    ensures
        text@ == form_encoded(bytes@),
{
    url::form_urlencoded::byte_serialize(bytes).collect()
}

/// Trusted: `serde_urlencoded::to_string` on a sequence of pairs of
/// strings. For such input it does not fail, and it writes the pairs in
/// their order as `name=value`, joined by `&`, names and values
/// form-encoded from their UTF-8 bytes.
#[verifier::external_body]
fn form_encode_pairs(pairs: &Vec<(String, String)>) -> (text: Option<String>)
    ensures
        text is Some,
        text->Some_0@ == form_pairs(query_model(pairs@)),
{
    serde_urlencoded::to_string(pairs).ok()
}

/// The parameters of an announce for `torrent`: the client's peer id for
/// the torrent, the port it listens on, what was downloaded and uploaded,
/// and what is left, which is the size of the torrent less what was
/// downloaded.
///
/// Fails with `NegativeRemaining`, and leaves the cache as it is, where
/// more was downloaded than the torrent holds. The peer id is that of
/// [`get_or_create_peer_id`] for the name that `info` gives, or for
/// `wrongo` where it gives none; where no id can be made the call fails
/// with `PrefixTooLong`.
pub fn construct_query_map(torrent: &Torrent, port: u16, peer_id_cache: &mut PeerIdCache) -> (r:
    Result<Vec<(String, String)>, QueryError>)
    ensures
        final(peer_id_cache).version() == old(peer_id_cache).version(),
        torrent.downloaded > layout_size(torrent.torrent_file@.info.file) ==> r == Err::<
            Vec<(String, String)>,
            QueryError,
        >(QueryError::NegativeRemaining) && final(peer_id_cache).ids() == old(peer_id_cache).ids(),
        torrent.downloaded <= layout_size(torrent.torrent_file@.info.file) ==> peer_id_outcome(
            old(peer_id_cache).ids(),
            old(peer_id_cache).version(),
            text_or(torrent.torrent_file@.info.name, "wrongo"@),
            match r {
                Ok(query) => Ok(query[0].1@),
                Err(_) => Err(PeerIdError::PrefixTooLong),
            },
            final(peer_id_cache).ids(),
        ),
        r matches Ok(query) ==> query.len() == 5 && query_model(query@) == query_pairs(
            query[0].1@,
            port,
            torrent.downloaded,
            torrent.uploaded,
            (layout_size(torrent.torrent_file@.info.file) - torrent.downloaded) as nat,
        ),
        r matches Err(e) ==> e == QueryError::NegativeRemaining || e == QueryError::PrefixTooLong,
        r == Err::<Vec<(String, String)>, QueryError>(QueryError::NegativeRemaining)
            ==> torrent.downloaded > layout_size(torrent.torrent_file@.info.file),
{
    let size = full_size(&torrent.torrent_file);
    if torrent.downloaded as u128 > size {
        return Err(QueryError::NegativeRemaining);
    }
    let left: u128 = size - torrent.downloaded as u128;
    let peer_id = match &torrent.torrent_file.info.name {
        Some(name) => get_or_create_peer_id(name.as_str(), peer_id_cache),
        None => get_or_create_peer_id("wrongo", peer_id_cache),
    };
    let peer_id = match peer_id {
        Ok(peer_id) => peer_id,
        Err(_) => {
            return Err(QueryError::PrefixTooLong);
        },
    };
    let mut query: Vec<(String, String)> = Vec::new();
    query.push((String::from_str("peer_id"), peer_id));
    query.push((String::from_str("port"), decimal_string(port as u128)));
    query.push((String::from_str("downloaded"), decimal_string(torrent.downloaded as u128)));
    query.push((String::from_str("uploaded"), decimal_string(torrent.uploaded as u128)));
    query.push((String::from_str("left"), decimal_string(left)));
    assert(query_model(query@) =~= query_pairs(
        query[0].1@,
        port,
        torrent.downloaded,
        torrent.uploaded,
        left as nat,
    ));
    Ok(query)
}

/// The URL to announce at: the tracker's URL, the parameters of `query` as
/// a query string, and the hash behind them, form-encoded from its raw
/// bytes, which no text encoding would carry.
pub fn announce_url(announce: &str, query: &Vec<(String, String)>, info_hash: &InfoHash) -> (url:
    String)
    ensures
        url@ == announce_url_text(announce@, query_model(query@), info_hash@),
{
    let mut url = String::from_str(announce);
    url.append("?");
    match form_encode_pairs(query) {
        Some(parameters) => {
            url.append(parameters.as_str());
        },
        None => {},
    }
    url.append("&info_hash=");
    let hash = form_encode(vstd::array::array_as_slice(info_hash));
    url.append(hash.as_str());
    url
}

} // verus!
