use torrentox::errors::PeerIdError;
use torrentox::peer_id::{
    alphabet_byte, get_or_create_peer_id, peer_id_from_picks, peer_id_prefix, ClientVersion,
    PeerIdCache,
};

fn version() -> ClientVersion {
    ClientVersion { major: 0, minor: 1, patch: 0 }
}

#[test]
fn test_get_or_create_peer_id() {
    //We ask for an id whn we do not have one
    let torrent_file_name = "foom.torrent";
    let mut cache = PeerIdCache::seeded(version(), 1);
    let id = get_or_create_peer_id(torrent_file_name, &mut cache).unwrap();
    //We get one back
    assert_eq!(1, cache.len());
    assert_eq!(20, id.len());
    assert!(id.starts_with("-OX"));
    //We also have it in the cache
    let default = "wrongo".to_owned();
    let cache_id = cache.get(torrent_file_name).unwrap_or(&default);
    assert_eq!(id, cache_id.to_owned());

    //we ask for an id when we have one
    cache.insert(
        "test.whatnot".to_owned(),
        "cache rules everything around me".to_owned(),
    );
    //we get the one that was in the cache back
    let new_id = get_or_create_peer_id("test.whatnot", &mut cache).unwrap();

    //there is no other one in the cache
    let second_torrent_name = "test.whatnot";
    let get_or_created_peer_id = cache.get(second_torrent_name).unwrap_or(&default);
    assert_eq!(&new_id, get_or_created_peer_id);
    assert_eq!(new_id, "cache rules everything around me");
    assert_eq!(2, cache.len());
}

#[test]
fn fresh_id_has_prefix_and_alphanumeric_tail() {
    let mut cache = PeerIdCache::seeded(ClientVersion { major: 12, minor: 3, patch: 45 }, 99);
    let id = get_or_create_peer_id("a.torrent", &mut cache).unwrap();
    assert_eq!(id.len(), 20);
    assert!(id.starts_with("-OX12-3-45-"));
    assert!(id[11..].bytes().all(|b| b.is_ascii_alphanumeric()));
}

#[test]
fn second_call_returns_the_same_id() {
    let mut cache = PeerIdCache::seeded(version(), 5);
    let first = get_or_create_peer_id("a.torrent", &mut cache).unwrap();
    let second = get_or_create_peer_id("a.torrent", &mut cache).unwrap();
    assert_eq!(first, second);
    assert_eq!(cache.len(), 1);
}

#[test]
fn other_name_gets_another_id() {
    let mut cache = PeerIdCache::seeded(version(), 5);
    let first = get_or_create_peer_id("a.torrent", &mut cache).unwrap();
    let other = get_or_create_peer_id("b.torrent", &mut cache).unwrap();
    assert_ne!(first, other);
    assert_eq!(cache.len(), 2);
    assert_eq!(cache.get("a.torrent"), Some(&first));
    assert_eq!(cache.get("b.torrent"), Some(&other));
    assert_eq!(cache.get("c.torrent"), None);
}

#[test]
fn same_seed_gives_the_same_ids() {
    let mut one = PeerIdCache::seeded(version(), 1234);
    let mut two = PeerIdCache::seeded(version(), 1234);
    for name in ["a", "b", "c"] {
        assert_eq!(
            get_or_create_peer_id(name, &mut one),
            get_or_create_peer_id(name, &mut two)
        );
    }
}

#[test]
fn system_seeded_cache_makes_ids() {
    let mut cache = PeerIdCache::from_system(version()).unwrap();
    assert_eq!(cache.len(), 0);
    let id = get_or_create_peer_id("a.torrent", &mut cache).unwrap();
    assert_eq!(id.len(), 20);
    assert!(id.starts_with("-OX0-1-0-"));
}

#[test]
fn prefix_of_twenty_bytes_leaves_no_room_for_a_tail() {
    let v = ClientVersion { major: 12345, minor: 12345, patch: 1234 };
    assert_eq!(peer_id_prefix(&v).len(), 20);
    let mut cache = PeerIdCache::seeded(v, 0);
    assert_eq!(
        get_or_create_peer_id("a", &mut cache),
        Ok("-OX12345-12345-1234-".to_string())
    );
}

#[test]
fn prefix_longer_than_an_id_fails() {
    let v = ClientVersion { major: 12345, minor: 12345, patch: 12345 };
    let mut cache = PeerIdCache::seeded(v, 0);
    assert_eq!(
        get_or_create_peer_id("a", &mut cache),
        Err(PeerIdError::PrefixTooLong)
    );
    assert_eq!(cache.len(), 0);
    cache.insert("a".to_string(), "kept".to_string());
    assert_eq!(get_or_create_peer_id("a", &mut cache), Ok("kept".to_string()));
}

#[test]
fn prefix_is_made_from_the_version() {
    assert_eq!(peer_id_prefix(&version()), b"-OX0-1-0-".to_vec());
    assert_eq!(
        peer_id_prefix(&ClientVersion { major: u64::MAX, minor: 0, patch: 10 }),
        b"-OX18446744073709551615-0-10-".to_vec()
    );
}

#[test]
fn alphabet_is_letters_then_digits() {
    let all: Vec<u8> = (0..62).map(alphabet_byte).collect();
    assert_eq!(
        all,
        b"abcdefghijklmnopqrstuvwxyzABCDEFGHIJKLMNOPQRSTUVWXYZ1234567890".to_vec()
    );
    assert_eq!(alphabet_byte(62), b'?');
    assert_eq!(alphabet_byte(usize::MAX), b'?');
}

#[test]
fn id_from_picks_is_prefix_and_one_character_for_each_pick() {
    let picks = [0, 25, 26, 51, 52, 60, 61, 1, 2, 3, 4];
    assert_eq!(
        peer_id_from_picks(&version(), &picks),
        b"-OX0-1-0-azAZ190bcde".to_vec()
    );
    assert_eq!(peer_id_from_picks(&version(), &[]), b"-OX0-1-0-".to_vec());
}
