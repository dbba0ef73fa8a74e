use sha1::{Digest, Sha1};
use torrentox::bencode::reader::parse;
use torrentox::bencode::writer::serialize;
use torrentox::errors::{FieldName, ParseError};
use torrentox::metainfo::model::{FileInfo, Info, Torrent, TorrentFile, TorrentFileInfo};
use torrentox::metainfo::reader::{parse_torrent, torrent_from_document};
use torrentox::metainfo::torrent::{
    get_size, load_torrent, record_of, torrent_of_record, TorrentRecord,
};
use torrentox::metainfo::writer::{info_value, parse_info_hash};

const SINGLE_INFO: &[u8] = b"d6:lengthi32768e4:name5:a.iso12:piece lengthi16384ee";

const MULTI_INFO: &[u8] = b"d5:filesld6:lengthi10e4:pathl3:dir5:a.txteed6:lengthi20e4:pathl5:b.bineee4:name4:pack12:piece lengthi262144ee";

fn document(announce: Option<&str>, info: &[u8]) -> Vec<u8> {
    let mut doc = b"d".to_vec();
    if let Some(url) = announce {
        doc.extend_from_slice(format!("8:announce{}:{}", url.len(), url).as_bytes());
    }
    doc.extend_from_slice(b"4:info");
    doc.extend_from_slice(info);
    doc.extend_from_slice(b"e");
    doc
}

fn with_info(info: &[u8]) -> Result<TorrentFile, ParseError> {
    parse_torrent(&document(Some("http://t.example/announce"), info))
}

fn sha1_of(bytes: &[u8]) -> [u8; 20] {
    Sha1::digest(bytes).into()
}

#[test]
fn single_file_torrent_is_read() {
    let torrent = with_info(SINGLE_INFO).unwrap();
    assert_eq!(torrent.announce, Some("http://t.example/announce".to_string()));
    assert_eq!(torrent.info.name, Some("a.iso".to_string()));
    assert_eq!(torrent.info.piece_length, 16384);
    assert_eq!(torrent.info.meta_version, None);
    assert_eq!(torrent.info.file, TorrentFileInfo::SingleFile { length: 32768 });
    assert_eq!(get_size(&torrent), 32768);
}

#[test]
fn info_hash_is_sha1_of_the_info_bytes() {
    let torrent = with_info(SINGLE_INFO).unwrap();
    assert_eq!(
        torrent.info_hash,
        [0, 202, 118, 200, 140, 181, 9, 221, 97, 26, 220, 90, 126, 19, 180, 166, 70, 180, 6, 217]
    );
    assert_eq!(torrent.info_hash, sha1_of(SINGLE_INFO));
    let multi = with_info(MULTI_INFO).unwrap();
    assert_eq!(multi.info_hash, sha1_of(MULTI_INFO));
}

#[test]
fn info_hash_covers_keys_that_are_not_modelled() {
    let info: &[u8] =
        b"d6:lengthi5e4:name1:x12:piece lengthi4e6:pieces20:aaaaaaaaaaaaaaaaaaaa7:privatei1ee";
    let torrent = with_info(info).unwrap();
    assert_eq!(torrent.info_hash, sha1_of(info));
    assert_ne!(
        torrent.info_hash,
        sha1_of(b"d6:lengthi5e4:name1:x12:piece lengthi4ee")
    );
}

#[test]
fn info_hash_is_taken_over_canonical_bytes() {
    let unsorted: &[u8] = b"d12:piece lengthi016384e4:name5:a.iso6:lengthi32768ee";
    let torrent = with_info(unsorted).unwrap();
    assert_eq!(torrent.info_hash, sha1_of(SINGLE_INFO));
}

#[test]
fn parsing_twice_gives_the_same_info_hash() {
    let doc = document(Some("http://t.example/announce"), MULTI_INFO);
    let first = parse_torrent(&doc).unwrap();
    let second = parse_torrent(&doc).unwrap();
    assert_eq!(first.info_hash, second.info_hash);
    assert_eq!(first, second);
}

#[test]
fn multi_file_torrent_is_read() {
    let torrent = with_info(MULTI_INFO).unwrap();
    assert_eq!(torrent.info.name, Some("pack".to_string()));
    assert_eq!(torrent.info.piece_length, 262144);
    assert_eq!(
        torrent.info.file,
        TorrentFileInfo::MultipleFiles {
            files: vec![
                FileInfo { length: 10, path: vec![b"dir".to_vec(), b"a.txt".to_vec()] },
                FileInfo { length: 20, path: vec![b"b.bin".to_vec()] },
            ]
        }
    );
    assert_eq!(get_size(&torrent), 30);
}

#[test]
fn path_segments_stay_raw_bytes() {
    let info: &[u8] = b"d5:filesld6:lengthi1e4:pathl2:\xff\xfeeee12:piece lengthi1ee";
    let torrent = with_info(info).unwrap();
    assert_eq!(
        torrent.info.file,
        TorrentFileInfo::MultipleFiles {
            files: vec![FileInfo { length: 1, path: vec![vec![0xff, 0xfe]] }]
        }
    );
}

#[test]
fn announce_and_name_are_optional() {
    let doc = document(None, b"d6:lengthi1e12:piece lengthi1ee");
    let torrent = parse_torrent(&doc).unwrap();
    assert_eq!(torrent.announce, None);
    assert_eq!(torrent.info.name, None);
}

#[test]
fn meta_version_is_read() {
    let torrent = with_info(b"d6:lengthi1e12:meta versioni2e12:piece lengthi1ee").unwrap();
    assert_eq!(torrent.info.meta_version, Some(2));
    let low = with_info(b"d6:lengthi1e12:meta versioni-128e12:piece lengthi1ee").unwrap();
    assert_eq!(low.info.meta_version, Some(-128));
    assert_eq!(
        with_info(b"d6:lengthi1e12:meta versioni128e12:piece lengthi1ee"),
        Err(ParseError::TypeMismatch)
    );
    assert_eq!(
        with_info(b"d6:lengthi1e12:meta version1:212:piece lengthi1ee"),
        Err(ParseError::TypeMismatch)
    );
}

#[test]
fn both_length_and_files_is_ambiguous() {
    assert_eq!(
        with_info(b"d5:filesle6:lengthi1e12:piece lengthi1ee"),
        Err(ParseError::AmbiguousLayout)
    );
    assert_eq!(
        with_info(b"d5:filesi0e6:length0:12:piece lengthi1ee"),
        Err(ParseError::AmbiguousLayout)
    );
}

#[test]
fn neither_length_nor_files_is_missing_layout() {
    assert_eq!(
        with_info(b"d4:name1:x12:piece lengthi1ee"),
        Err(ParseError::MissingLayout)
    );
}

#[test]
fn missing_info_is_reported() {
    assert_eq!(
        parse_torrent(b"d8:announce3:urle"),
        Err(ParseError::MissingField(FieldName::Info))
    );
    assert_eq!(parse_torrent(b"de"), Err(ParseError::MissingField(FieldName::Info)));
}

#[test]
fn missing_piece_length_is_reported() {
    assert_eq!(
        with_info(b"d6:lengthi1e4:name1:xe"),
        Err(ParseError::MissingField(FieldName::PieceLength))
    );
    assert_eq!(
        with_info(b"de"),
        Err(ParseError::MissingField(FieldName::PieceLength))
    );
}

#[test]
fn wrong_shapes_are_type_mismatches() {
    assert_eq!(parse_torrent(b"le"), Err(ParseError::TypeMismatch));
    assert_eq!(parse_torrent(b"i1e"), Err(ParseError::TypeMismatch));
    assert_eq!(
        parse_torrent(b"d8:announcei1e4:infodee"),
        Err(ParseError::TypeMismatch)
    );
    assert_eq!(parse_torrent(b"d4:infolee"), Err(ParseError::TypeMismatch));
    assert_eq!(
        with_info(b"d6:lengthi1e4:namei1e12:piece lengthi1ee"),
        Err(ParseError::TypeMismatch)
    );
    assert_eq!(
        with_info(b"d6:lengthi1e12:piece length1:1e"),
        Err(ParseError::TypeMismatch)
    );
    assert_eq!(
        with_info(b"d6:length1:112:piece lengthi1ee"),
        Err(ParseError::TypeMismatch)
    );
    assert_eq!(
        with_info(b"d6:lengthi-1e12:piece lengthi1ee"),
        Err(ParseError::TypeMismatch)
    );
}

#[test]
fn piece_length_must_be_positive() {
    assert_eq!(
        with_info(b"d6:lengthi1e12:piece lengthi0ee"),
        Err(ParseError::TypeMismatch)
    );
    assert_eq!(
        with_info(b"d6:lengthi1e12:piece lengthi-4ee"),
        Err(ParseError::TypeMismatch)
    );
}

#[test]
fn malformed_files_are_type_mismatches() {
    assert_eq!(
        with_info(b"d5:filesi1e12:piece lengthi1ee"),
        Err(ParseError::TypeMismatch)
    );
    assert_eq!(
        with_info(b"d5:filesli1ee12:piece lengthi1ee"),
        Err(ParseError::TypeMismatch)
    );
    assert_eq!(
        with_info(b"d5:filesld6:lengthi1eee12:piece lengthi1ee"),
        Err(ParseError::TypeMismatch)
    );
    assert_eq!(
        with_info(b"d5:filesld4:pathleee12:piece lengthi1ee"),
        Err(ParseError::TypeMismatch)
    );
    assert_eq!(
        with_info(b"d5:filesld6:lengthi1e4:pathli1eeee12:piece lengthi1ee"),
        Err(ParseError::TypeMismatch)
    );
    assert_eq!(
        with_info(b"d5:filesld6:lengthi-1e4:pathleee12:piece lengthi1ee"),
        Err(ParseError::TypeMismatch)
    );
}

#[test]
fn file_lengths_beyond_64_bits_are_refused() {
    let big = b"d6:lengthi9223372036854775807e4:pathlee";
    let mut info = b"d5:filesl".to_vec();
    info.extend_from_slice(big);
    info.extend_from_slice(big);
    info.extend_from_slice(b"e12:piece lengthi1ee");
    let two = with_info(&info).unwrap();
    assert_eq!(get_size(&two), 18446744073709551614);
    let mut info = b"d5:filesl".to_vec();
    info.extend_from_slice(big);
    info.extend_from_slice(big);
    info.extend_from_slice(b"d6:lengthi1e4:pathlee");
    info.extend_from_slice(b"e12:piece lengthi1ee");
    let full = with_info(&info).unwrap();
    assert_eq!(get_size(&full), u64::MAX);
    let mut info = b"d5:filesl".to_vec();
    info.extend_from_slice(big);
    info.extend_from_slice(big);
    info.extend_from_slice(b"d6:lengthi2e4:pathlee");
    info.extend_from_slice(b"e12:piece lengthi1ee");
    assert_eq!(with_info(&info), Err(ParseError::TypeMismatch));
}

#[test]
fn text_must_be_utf8() {
    assert_eq!(
        parse_torrent(b"d8:announce2:\xff\xfe4:infod6:lengthi1e12:piece lengthi1eee"),
        Err(ParseError::InvalidUtf8)
    );
    assert_eq!(
        with_info(b"d6:lengthi1e4:name2:\xc3\x2812:piece lengthi1ee"),
        Err(ParseError::InvalidUtf8)
    );
    let torrent = with_info(b"d6:lengthi1e4:name6:comt\xc3\xa912:piece lengthi1ee").unwrap();
    assert_eq!(torrent.info.name, Some("comté".to_string()));
}

#[test]
fn errors_come_in_the_order_of_the_fields() {
    assert_eq!(
        parse_torrent(b"d8:announce1:\xffe"),
        Err(ParseError::InvalidUtf8)
    );
    assert_eq!(
        with_info(b"d4:name1:\xff"),
        Err(ParseError::MalformedEncoding { offset: 56 })
    );
    assert_eq!(with_info(b"d4:name1:\xffe"), Err(ParseError::InvalidUtf8));
    assert_eq!(
        with_info(b"d4:name1:xe"),
        Err(ParseError::MissingField(FieldName::PieceLength))
    );
    assert_eq!(
        with_info(b"d12:meta versioni999e12:piece lengthi1ee"),
        Err(ParseError::TypeMismatch)
    );
}

#[test]
fn bytes_that_are_no_bencode_are_malformed() {
    assert_eq!(parse_torrent(b""), Err(ParseError::MalformedEncoding { offset: 0 }));
    assert_eq!(
        parse_torrent(b"d4:infod6:lengthi1e"),
        Err(ParseError::MalformedEncoding { offset: 19 })
    );
    assert_eq!(
        parse_torrent(b"d4:infod6:lengthixee"),
        Err(ParseError::MalformedEncoding { offset: 17 })
    );
}

#[test]
fn torrent_is_read_from_a_document() {
    let doc = parse(&document(None, SINGLE_INFO)).unwrap();
    let torrent = torrent_from_document(&doc).unwrap();
    assert_eq!(torrent.info_hash, sha1_of(SINGLE_INFO));
}

#[test]
fn loaded_torrent_is_named_and_sized() {
    let bytes = document(Some("http://t.example/announce"), SINGLE_INFO);
    let torrent = load_torrent("a.torrent", bytes.clone()).unwrap();
    assert_eq!(torrent.name, "a.iso Top Level Container");
    assert_eq!(torrent.file_path, "a.torrent");
    assert_eq!(torrent.announce_url, None);
    assert_eq!(torrent.raw_bytes, bytes);
    assert_eq!(torrent.size, 32768);
    assert_eq!(torrent.downloaded, 0);
    assert_eq!(torrent.uploaded, 0);
    assert_eq!(torrent.torrent_file, parse_torrent(&bytes).unwrap());
}

#[test]
fn loaded_torrent_without_name_gets_a_stand_in() {
    let bytes = document(None, b"d6:lengthi7e12:piece lengthi1ee");
    let torrent = load_torrent("x", bytes).unwrap();
    assert_eq!(torrent.name, "Unknown to foom Top Level Container");
    assert_eq!(torrent.size, 7);
}

#[test]
fn load_fails_as_parsing_fails() {
    assert_eq!(
        load_torrent("x", b"d4:infodee".to_vec()),
        Err(ParseError::MissingField(FieldName::PieceLength))
    );
}

#[test]
fn parsed_torrent_file_has_exactly_one_layout() {
    let torrent = load_torrent(
        "pack.torrent",
        document(Some("http://t.example/announce"), MULTI_INFO),
    )
    .unwrap();
    assert_ne!(None, torrent.torrent_file.info.name);
    assert!(torrent.torrent_file.info.piece_length > 0);
    assert_eq!(None, torrent.torrent_file.info.meta_version);
    let (files_found, length_found) = match torrent.torrent_file.info.clone().file {
        TorrentFileInfo::MultipleFiles { .. } => (true, false),
        TorrentFileInfo::SingleFile { .. } => (false, true),
    };
    assert!(
        (files_found && !length_found) || (!files_found && length_found),
        "Expected one of 'length' or 'files', but not both and not neither"
    );
    let md_info = torrent.clone().torrent_file.info;
    let hash = parse_info_hash(&md_info).unwrap();
    assert_eq!(20, hash.len());
}

#[test]
fn record_holds_what_the_store_keeps() {
    let bytes = document(Some("http://t.example/announce"), SINGLE_INFO);
    let mut torrent = load_torrent("a.torrent", bytes.clone()).unwrap();
    torrent.downloaded = 5;
    torrent.uploaded = 6;
    let record = record_of(&torrent);
    assert_eq!(
        record,
        TorrentRecord {
            name: "a.iso".to_string(),
            file_path: "a.torrent".to_string(),
            announce_url: "http://t.example/announce".to_string(),
            raw_bytes: bytes,
            size: 32768,
            downloaded: 5,
            uploaded: 6,
        }
    );
}

#[test]
fn record_of_torrent_without_texts_holds_none() {
    let torrent = load_torrent("x", document(None, b"d6:lengthi7e12:piece lengthi1ee")).unwrap();
    let record = record_of(&torrent);
    assert_eq!(record.name, "None");
    assert_eq!(record.announce_url, "None");
}

#[test]
fn torrent_is_made_from_a_record() {
    let bytes = document(Some("http://t.example/announce"), SINGLE_INFO);
    let record = TorrentRecord {
        name: "stored".to_string(),
        file_path: "p".to_string(),
        announce_url: "http://stored".to_string(),
        raw_bytes: bytes.clone(),
        size: 1,
        downloaded: 2,
        uploaded: 3,
    };
    let torrent = torrent_of_record(record).unwrap();
    assert_eq!(
        torrent,
        Torrent {
            torrent_file: parse_torrent(&bytes).unwrap(),
            name: "stored".to_string(),
            file_path: "p".to_string(),
            announce_url: Some("http://stored".to_string()),
            raw_bytes: bytes,
            size: 1,
            downloaded: 2,
            uploaded: 3,
        }
    );
}

#[test]
fn torrent_of_record_fails_on_stored_bytes_that_are_no_torrent() {
    let record = TorrentRecord {
        name: "stored".to_string(),
        file_path: "p".to_string(),
        announce_url: "u".to_string(),
        raw_bytes: b"i1e".to_vec(),
        size: 0,
        downloaded: 0,
        uploaded: 0,
    };
    assert_eq!(torrent_of_record(record), Err(ParseError::TypeMismatch));
}

#[test]
fn typed_info_is_written_in_key_order() {
    let info = Info {
        name: Some("a.iso".to_string()),
        piece_length: 16384,
        meta_version: None,
        file: TorrentFileInfo::SingleFile { length: 32768 },
    };
    assert_eq!(serialize(&info_value(&info).unwrap()), SINGLE_INFO.to_vec());
    assert_eq!(parse_info_hash(&info), Some(sha1_of(SINGLE_INFO)));
    let multi = with_info(MULTI_INFO).unwrap();
    assert_eq!(serialize(&info_value(&multi.info).unwrap()), MULTI_INFO.to_vec());
    assert_eq!(parse_info_hash(&multi.info), Some(multi.info_hash));
}

#[test]
fn typed_info_writes_meta_version_and_leaves_out_what_is_absent() {
    let info = Info {
        name: None,
        piece_length: 1,
        meta_version: Some(-2),
        file: TorrentFileInfo::MultipleFiles { files: vec![] },
    };
    assert_eq!(
        serialize(&info_value(&info).unwrap()),
        b"d5:filesle12:meta versioni-2e12:piece lengthi1ee".to_vec()
    );
}

#[test]
fn typed_info_with_numbers_beyond_the_encoding_has_no_hash() {
    let info = Info {
        name: None,
        piece_length: 1,
        meta_version: None,
        file: TorrentFileInfo::SingleFile { length: 1 << 63 },
    };
    assert_eq!(parse_info_hash(&info), None);
    let info = Info {
        name: None,
        piece_length: u64::MAX,
        meta_version: None,
        file: TorrentFileInfo::SingleFile { length: 1 },
    };
    assert_eq!(parse_info_hash(&info), None);
    let info = Info {
        name: None,
        piece_length: 1,
        meta_version: None,
        file: TorrentFileInfo::MultipleFiles {
            files: vec![
                FileInfo { length: 1, path: vec![] },
                FileInfo { length: u64::MAX, path: vec![] },
            ],
        },
    };
    assert_eq!(parse_info_hash(&info), None);
}
