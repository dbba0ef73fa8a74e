use torrentox::errors::{AnnounceError, QueryError, TrackerError};
use torrentox::metainfo::model::{Info, Torrent, TorrentFile, TorrentFileInfo, FileInfo};
use torrentox::metainfo::torrent::load_torrent;
use torrentox::peer_id::{get_or_create_peer_id, ClientVersion, PeerIdCache};
use torrentox::metainfo::torrent::full_size;
use torrentox::tracker::query::{announce_url, construct_query_map};
use torrentox::tracker::response::{
    decode_compact_peers, parse_announce_response, read_exchange, Peer, TrackerAnnounceResponse,
};
use torrentox::tracker::session::{
    complete_announce, peer_id_array, prepare_announce, AnnounceRequest,
};

fn cache() -> PeerIdCache {
    PeerIdCache::seeded(ClientVersion { major: 0, minor: 1, patch: 0 }, 42)
}

fn torrent(name: Option<&str>, announce: Option<&str>, length: u64) -> Torrent {
    Torrent {
        torrent_file: TorrentFile {
            announce: announce.map(|a| a.to_string()),
            info: Info {
                name: name.map(|n| n.to_string()),
                piece_length: 16384,
                meta_version: None,
                file: TorrentFileInfo::SingleFile { length },
            },
            info_hash: *b" aZ09*-._~!\xff\x00+%/=&?b",
        },
        name: "n".to_string(),
        file_path: "p".to_string(),
        announce_url: None,
        raw_bytes: vec![],
        size: length,
        downloaded: 0,
        uploaded: 0,
    }
}

fn pair(name: &str, value: &str) -> (String, String) {
    (name.to_string(), value.to_string())
}

fn peer(ip: &str, port: u16) -> Peer {
    Peer { ip: ip.to_string(), port }
}

#[test]
fn compact_peer_is_decoded() {
    assert_eq!(
        decode_compact_peers(&[127, 0, 0, 1, 0x1A, 0xE1]),
        Ok(vec![peer("127.0.0.1", 6881)])
    );
}

#[test]
fn compact_peers_of_wrong_length_are_malformed() {
    assert_eq!(
        decode_compact_peers(&[127, 0, 0, 1, 0x1A, 0xE1, 9]),
        Err(TrackerError::MalformedPeerList)
    );
    assert_eq!(
        decode_compact_peers(&[1, 2, 3, 4, 5]),
        Err(TrackerError::MalformedPeerList)
    );
}

#[test]
fn compact_peers_keep_their_order() {
    let blob = [10, 0, 0, 1, 0, 80, 255, 255, 255, 255, 255, 255, 0, 0, 0, 0, 0, 0];
    assert_eq!(
        decode_compact_peers(&blob),
        Ok(vec![
            peer("10.0.0.1", 80),
            peer("255.255.255.255", 65535),
            peer("0.0.0.0", 0),
        ])
    );
    assert_eq!(decode_compact_peers(&[]), Ok(vec![]));
}

#[test]
fn port_is_big_endian() {
    assert_eq!(
        decode_compact_peers(&[192, 168, 1, 20, 0x01, 0x00]),
        Ok(vec![peer("192.168.1.20", 256)])
    );
    assert_eq!(
        decode_compact_peers(&[192, 168, 1, 20, 0x00, 0x01]),
        Ok(vec![peer("192.168.1.20", 1)])
    );
}

#[test]
fn peer_is_shown_as_address_and_port() {
    assert_eq!(peer("127.0.0.1", 6881).to_string(), "127.0.0.1:6881");
    assert_eq!(peer("tracker.example", 0).to_string(), "tracker.example:0");
}

#[test]
fn announce_response_with_two_peers() {
    let mut body = b"d8:intervali1800e5:peers12:".to_vec();
    body.extend_from_slice(&[10, 0, 0, 1, 0x1A, 0xE1, 10, 0, 0, 2, 0x1A, 0xE2]);
    body.extend_from_slice(b"e");
    assert_eq!(
        parse_announce_response(&body),
        Ok(TrackerAnnounceResponse {
            interval: 1800,
            peers: vec![peer("10.0.0.1", 6881), peer("10.0.0.2", 6882)],
        })
    );
}

#[test]
fn end_to_end_single_file_torrent_and_two_peers() {
    let doc = b"d8:announce20:http://t.example/ann4:infod6:lengthi32768e4:name5:a.iso12:piece lengthi16384eee";
    let torrent = load_torrent("a.torrent", doc.to_vec()).unwrap();
    assert_eq!(torrent.size, 32768);
    assert_eq!(full_size(&torrent.torrent_file), 32768);
    let mut body = b"d8:intervali1800e5:peers12:".to_vec();
    body.extend_from_slice(&[1, 2, 3, 4, 0, 1, 5, 6, 7, 8, 0, 2]);
    body.extend_from_slice(b"e");
    let session = complete_announce(torrent.clone(), [7u8; 20], 200, body).unwrap();
    assert_eq!(session.peers, vec![peer("1.2.3.4", 1), peer("5.6.7.8", 2)]);
    assert_eq!(session.peer_id, [7u8; 20]);
    assert_eq!(session.torrent, torrent);
}

#[test]
fn announce_response_of_wrong_shape_is_malformed() {
    assert_eq!(parse_announce_response(b""), Err(TrackerError::MalformedResponse));
    assert_eq!(parse_announce_response(b"le"), Err(TrackerError::MalformedResponse));
    assert_eq!(
        parse_announce_response(b"d5:peers0:e"),
        Err(TrackerError::MalformedResponse)
    );
    assert_eq!(
        parse_announce_response(b"d8:intervali1800ee"),
        Err(TrackerError::MalformedResponse)
    );
    assert_eq!(
        parse_announce_response(b"d8:interval4:18005:peers0:e"),
        Err(TrackerError::MalformedResponse)
    );
    assert_eq!(
        parse_announce_response(b"d8:intervali-1e5:peers0:e"),
        Err(TrackerError::MalformedResponse)
    );
    assert_eq!(
        parse_announce_response(b"d14:failure reason5:nope!e"),
        Err(TrackerError::MalformedResponse)
    );
}

#[test]
fn announce_response_with_peers_that_are_not_compact() {
    assert_eq!(
        parse_announce_response(b"d8:intervali1800e5:peers7:abcdefge"),
        Err(TrackerError::MalformedPeerList)
    );
    assert_eq!(
        parse_announce_response(b"d8:intervali1800e5:peerslee"),
        Err(TrackerError::MalformedPeerList)
    );
    assert_eq!(
        parse_announce_response(b"d8:intervali0e5:peers0:e"),
        Ok(TrackerAnnounceResponse { interval: 0, peers: vec![] })
    );
}

#[test]
fn client_and_server_errors_carry_status_and_body() {
    assert_eq!(
        read_exchange(404, b"not found".to_vec()),
        Err(TrackerError::Http { status: 404, body: b"not found".to_vec() })
    );
    assert_eq!(
        read_exchange(400, b"d8:intervali0e5:peers0:e".to_vec()),
        Err(TrackerError::Http { status: 400, body: b"d8:intervali0e5:peers0:e".to_vec() })
    );
    assert_eq!(
        read_exchange(599, vec![]),
        Err(TrackerError::Http { status: 599, body: vec![] })
    );
    assert_eq!(
        read_exchange(503, b"busy".to_vec()),
        Err(TrackerError::Http { status: 503, body: b"busy".to_vec() })
    );
}

#[test]
fn other_statuses_have_their_body_read() {
    let ok = Ok(TrackerAnnounceResponse { interval: 0, peers: vec![] });
    assert_eq!(read_exchange(200, b"d8:intervali0e5:peers0:e".to_vec()), ok);
    assert_eq!(read_exchange(204, b"d8:intervali0e5:peers0:e".to_vec()), ok);
    assert_eq!(read_exchange(399, b"d8:intervali0e5:peers0:e".to_vec()), ok);
    assert_eq!(read_exchange(600, b"d8:intervali0e5:peers0:e".to_vec()), ok);
    assert_eq!(read_exchange(200, b"oops".to_vec()), Err(TrackerError::MalformedResponse));
}

#[test]
fn query_holds_the_five_parameters() {
    let mut cache = cache();
    let mut t = torrent(Some("a.iso"), None, 32768);
    t.downloaded = 768;
    t.uploaded = 5;
    let query = construct_query_map(&t, 6881, &mut cache).unwrap();
    let id = cache.get("a.iso").unwrap().clone();
    assert_eq!(id.len(), 20);
    assert_eq!(
        query,
        vec![
            pair("peer_id", &id),
            pair("port", "6881"),
            pair("downloaded", "768"),
            pair("uploaded", "5"),
            pair("left", "32000"),
        ]
    );
}

#[test]
fn query_uses_the_cached_peer_id() {
    let mut cache = cache();
    let id = get_or_create_peer_id("a.iso", &mut cache).unwrap();
    let query = construct_query_map(&torrent(Some("a.iso"), None, 1), 1, &mut cache).unwrap();
    assert_eq!(query[0], pair("peer_id", &id));
    assert_eq!(cache.len(), 1);
}

#[test]
fn query_for_torrent_without_name_uses_a_stand_in() {
    let mut cache = cache();
    let query = construct_query_map(&torrent(None, None, 1), 1, &mut cache).unwrap();
    assert_eq!(cache.get("wrongo"), Some(&query[0].1));
}

#[test]
fn left_is_size_less_downloaded() {
    let mut cache = cache();
    let mut t = torrent(Some("a"), None, 100);
    t.downloaded = 100;
    let query = construct_query_map(&t, 0, &mut cache).unwrap();
    assert_eq!(query[4], pair("left", "0"));
    assert_eq!(query[1], pair("port", "0"));
    t.torrent_file.info.file = TorrentFileInfo::MultipleFiles {
        files: vec![
            FileInfo { length: u64::MAX, path: vec![] },
            FileInfo { length: u64::MAX, path: vec![] },
        ],
    };
    t.downloaded = 1;
    assert_eq!(full_size(&t.torrent_file), 36893488147419103230);
    let query = construct_query_map(&t, 65535, &mut cache).unwrap();
    assert_eq!(query[4], pair("left", "36893488147419103229"));
    assert_eq!(query[1], pair("port", "65535"));
}

#[test]
fn downloaded_beyond_size_is_negative_remaining() {
    let mut cache = cache();
    let mut t = torrent(Some("a"), None, 100);
    t.downloaded = 101;
    assert_eq!(
        construct_query_map(&t, 6881, &mut cache),
        Err(QueryError::NegativeRemaining)
    );
    assert_eq!(cache.len(), 0);
}

#[test]
fn query_fails_where_no_peer_id_can_be_made() {
    let mut cache =
        PeerIdCache::seeded(ClientVersion { major: 1 << 40, minor: 1 << 40, patch: 0 }, 1);
    assert_eq!(
        construct_query_map(&torrent(Some("a"), None, 1), 1, &mut cache),
        Err(QueryError::PrefixTooLong)
    );
}

#[test]
fn announce_url_appends_query_and_encoded_hash() {
    let query = vec![
        pair("peer_id", "-OX0-1-0-abcdefghijk"),
        pair("port", "6881"),
        pair("left", "0"),
    ];
    let hash = *b" aZ09*-._~!\xff\x00+%/=&?b";
    assert_eq!(
        announce_url("http://t.example/announce", &query, &hash),
        "http://t.example/announce?peer_id=-OX0-1-0-abcdefghijk&port=6881&left=0&info_hash=+aZ09*-._%7E%21%FF%00%2B%25%2F%3D%26%3Fb"
    );
}

#[test]
fn announce_url_encodes_names_and_values() {
    let query = vec![pair("a b", "c&d=é"), pair("", ""), pair("~", "/")];
    assert_eq!(
        announce_url("u", &query, &[0u8; 20]),
        "u?a+b=c%26d%3D%C3%A9&=&%7E=%2F&info_hash=%00%00%00%00%00%00%00%00%00%00%00%00%00%00%00%00%00%00%00%00"
    );
    assert_eq!(
        announce_url("u", &vec![], &[b'A'; 20]),
        "u?&info_hash=AAAAAAAAAAAAAAAAAAAA"
    );
}

#[test]
fn peer_id_text_of_twenty_bytes_becomes_an_array() {
    assert_eq!(peer_id_array("-OX0-1-0-abcdefghijk"), Some(*b"-OX0-1-0-abcdefghijk"));
    assert_eq!(peer_id_array("short"), None);
    assert_eq!(peer_id_array("cache rules everything around me"), None);
    assert_eq!(peer_id_array("ééééé12345abcde"), Some(*"ééééé12345abcde".as_bytes().first_chunk::<20>().unwrap()));
}

#[test]
fn announce_is_prepared() {
    let mut cache = cache();
    let mut t = torrent(Some("a.iso"), Some("http://t.example/announce"), 32768);
    t.downloaded = 768;
    let request = prepare_announce(&t, 6881, &mut cache).unwrap();
    let id = cache.get("a.iso").unwrap().clone();
    assert_eq!(
        request,
        AnnounceRequest {
            url: format!(
                "http://t.example/announce?peer_id={}&port=6881&downloaded=768&uploaded=0&left=32000&info_hash=+aZ09*-._%7E%21%FF%00%2B%25%2F%3D%26%3Fb",
                id
            ),
            peer_id: *id.as_bytes().first_chunk::<20>().unwrap(),
        }
    );
}

#[test]
fn announce_without_tracker_is_refused() {
    let mut cache = cache();
    assert_eq!(
        prepare_announce(&torrent(Some("a"), None, 1), 1, &mut cache),
        Err(AnnounceError::MissingAnnounce)
    );
    assert_eq!(cache.len(), 0);
}

#[test]
fn announce_fails_as_the_query_fails() {
    let mut cache = cache();
    let mut t = torrent(Some("a"), Some("u"), 1);
    t.downloaded = 2;
    assert_eq!(
        prepare_announce(&t, 1, &mut cache),
        Err(AnnounceError::NegativeRemaining)
    );
    let mut cache =
        PeerIdCache::seeded(ClientVersion { major: 1 << 40, minor: 1 << 40, patch: 0 }, 1);
    assert_eq!(
        prepare_announce(&torrent(Some("a"), Some("u"), 1), 1, &mut cache),
        Err(AnnounceError::PrefixTooLong)
    );
}

#[test]
fn announce_with_cached_id_of_wrong_length_is_refused() {
    let mut cache = cache();
    cache.insert("a".to_string(), "cache rules everything around me".to_string());
    assert_eq!(
        prepare_announce(&torrent(Some("a"), Some("u"), 1), 1, &mut cache),
        Err(AnnounceError::PeerIdLength)
    );
}

#[test]
fn announce_that_the_tracker_refused_gives_the_error() {
    let t = torrent(Some("a"), Some("u"), 1);
    assert_eq!(
        complete_announce(t.clone(), [0u8; 20], 500, b"down".to_vec()),
        Err(TrackerError::Http { status: 500, body: b"down".to_vec() })
    );
    assert_eq!(
        complete_announce(t, [0u8; 20], 200, b"d8:intervali1e5:peers1:xe".to_vec()),
        Err(TrackerError::MalformedPeerList)
    );
}
