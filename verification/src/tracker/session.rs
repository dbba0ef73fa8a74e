//! One announce for one torrent: what is sent, and what becomes of the
//! answer.

use vstd::prelude::*;
use vstd::string::StringSliceAdditionalSpecFns;
use vstd::utf8::encode_utf8;
use crate::errors::{AnnounceError, PeerIdError, QueryError, TrackerError};
use crate::metainfo::model::{layout_size, PeerId, Torrent};
use crate::metainfo::torrent::text_or;
use crate::peer_id::{peer_id_outcome, PeerIdCache, PEER_ID_LENGTH};
use crate::tracker::query::{announce_url, announce_url_text, construct_query_map, query_pairs};
use crate::tracker::response::{
    is_error_status, peers_model, read_exchange, response_of, Peer,
};

verus! {

/// What is to be sent to the tracker, and the id that the client sends it
/// under.
#[derive(Clone, Debug, PartialEq, Eq)]
pub struct AnnounceRequest {
    pub url: String,
    pub peer_id: PeerId,
}

/// A torrent with the peers that its tracker named.
#[derive(Clone, Debug, PartialEq, Eq)]
pub struct TorrentSession {
    pub torrent: Torrent,
    /// The id of this client for the torrent.
    pub peer_id: PeerId,
    pub peers: Vec<Peer>,
}

/// The bytes of a peer id that is text, if they are twenty.
pub fn peer_id_array(id: &str) -> (array: Option<PeerId>)
    ensures
        array is Some == (id.spec_bytes().len() == PEER_ID_LENGTH),
        array matches Some(a) ==> a@ == id.spec_bytes(),
{
    let bytes = id.as_bytes();
    if bytes.len() != PEER_ID_LENGTH {
        return None;
    }
    let mut array: PeerId = [0u8; 20];
    let mut i: usize = 0;
    while i < PEER_ID_LENGTH
        invariant
            i <= PEER_ID_LENGTH,
            bytes.len() == PEER_ID_LENGTH,
            forall|k: int| 0 <= k < i ==> array@[k] == bytes@[k],
        decreases PEER_ID_LENGTH - i,
    {
        array[i] = bytes[i];
        i = i + 1;
    }
    assert(array@ =~= bytes@);
    Some(array)
}

/// Prepares the announce for `torrent`: the URL to get, and the client's
/// peer id for the torrent as bytes.
///
/// Fails with `MissingAnnounce` where the torrent file names no tracker;
/// then as [`construct_query_map`] fails; then with `PeerIdLength` where
/// the cache holds an id for the torrent that is not twenty bytes long.
/// The first two failures leave the cache as it is.
pub fn prepare_announce(torrent: &Torrent, port: u16, peer_id_cache: &mut PeerIdCache) -> (r:
    Result<AnnounceRequest, AnnounceError>)
    ensures
        final(peer_id_cache).version() == old(peer_id_cache).version(),
        torrent.torrent_file@.announce is None ==> r == Err::<AnnounceRequest, AnnounceError>(
            AnnounceError::MissingAnnounce,
        ) && final(peer_id_cache).ids() == old(peer_id_cache).ids(),
        torrent.torrent_file@.announce is Some && torrent.downloaded > layout_size(
            torrent.torrent_file@.info.file,
        ) ==> r == Err::<AnnounceRequest, AnnounceError>(AnnounceError::NegativeRemaining)
            && final(peer_id_cache).ids() == old(peer_id_cache).ids(),
        torrent.torrent_file@.announce is Some && torrent.downloaded <= layout_size(
            torrent.torrent_file@.info.file,
        ) ==> exists|id: Result<Seq<char>, PeerIdError>|
            {
                &&& #[trigger] peer_id_outcome(
                    old(peer_id_cache).ids(),
                    old(peer_id_cache).version(),
                    text_or(torrent.torrent_file@.info.name, "wrongo"@),
                    id,
                    final(peer_id_cache).ids(),
                )
                &&& match id {
                    Err(_) => r == Err::<AnnounceRequest, AnnounceError>(
                        AnnounceError::PrefixTooLong,
                    ),
                    Ok(id) => if encode_utf8(id).len() != PEER_ID_LENGTH {
                        r == Err::<AnnounceRequest, AnnounceError>(AnnounceError::PeerIdLength)
                    } else {
                        &&& r matches Ok(request)
                        &&& request.peer_id@ == encode_utf8(id)
                        &&& request.url@ == announce_url_text(
                            torrent.torrent_file@.announce->Some_0,
                            query_pairs(
                                id,
                                port,
                                torrent.downloaded,
                                torrent.uploaded,
                                (layout_size(torrent.torrent_file@.info.file)
                                    - torrent.downloaded) as nat,
                            ),
                            torrent.torrent_file@.info_hash,
                        )
                    },
                }
            },
{
    let announce = match &torrent.torrent_file.announce {
        Some(announce) => announce,
        None => {
            return Err(AnnounceError::MissingAnnounce);
        },
    };
    let query = match construct_query_map(torrent, port, peer_id_cache) {
        Ok(query) => query,
        Err(QueryError::NegativeRemaining) => {
            return Err(AnnounceError::NegativeRemaining);
        },
        Err(QueryError::PrefixTooLong) => {
            assert(peer_id_outcome(
                old(peer_id_cache).ids(),
                old(peer_id_cache).version(),
                text_or(torrent.torrent_file@.info.name, "wrongo"@),
                Err(PeerIdError::PrefixTooLong),
                peer_id_cache.ids(),
            ));
            return Err(AnnounceError::PrefixTooLong);
        },
    };
    assert(peer_id_outcome(
        old(peer_id_cache).ids(),
        old(peer_id_cache).version(),
        text_or(torrent.torrent_file@.info.name, "wrongo"@),
        Ok(query[0].1@),
        peer_id_cache.ids(),
    ));
    let peer_id = match peer_id_array(query[0].1.as_str()) {
        Some(peer_id) => peer_id,
        None => {
            return Err(AnnounceError::PeerIdLength);
        },
    };
    let url = announce_url(announce.as_str(), &query, &torrent.torrent_file.info_hash);
    Ok(AnnounceRequest { url, peer_id })
}

/// Makes the session of `torrent` from what the tracker answered to the
/// announce that was sent under `peer_id`: the peers of the answer, in its
/// order. Fails as [`read_exchange`] fails.
pub fn complete_announce(torrent: Torrent, peer_id: PeerId, status: u16, body: Vec<u8>) -> (r:
    Result<TorrentSession, TrackerError>)
    ensures
        is_error_status(status) ==> (r matches Err(TrackerError::Http { status: s, body: b })
            && s == status && b@ == body@),
        !is_error_status(status) ==> match response_of(body@) {
            Ok(answer) => r matches Ok(session) && session.torrent == torrent && session.peer_id
                == peer_id && peers_model(session.peers@) == answer.peers,
            Err(e) => r == Err::<TorrentSession, TrackerError>(e),
        },
{
    match read_exchange(status, body) {
        Ok(answer) => Ok(TorrentSession { torrent, peer_id, peers: answer.peers }),
        Err(e) => Err(e),
    }
}

} // verus!
