//! Reading a torrent file.

use vstd::prelude::*;
use crate::bencode::model::Bencode;
use crate::bencode::reader::parse;
use crate::bencode::value::{items_model, lemma_list_view, BencodeDict, BencodeValue};
use crate::bencode::writer::serialize;
use crate::digest::sha1_of;
use crate::errors::{result_model, FieldName, ParseError};
use crate::metainfo::document::{
    file_entries, file_entry, files_field, info_of, is_file_entry, is_length, is_path, is_sound,
    layout_field, meta_version_field, path_segments, piece_length_field, text_field, torrent_of,
    torrent_of_bytes,
};
use crate::metainfo::model::{
    files_model, lemma_total_length_prefix, text_model, total_length, FileInfo, FileModel, Info,
    TorrentFile, TorrentFileInfo,
};
use crate::text::string_from_utf8;

verus! {

/// Copies bytes.
fn copy_bytes(bytes: &Vec<u8>) -> (copy: Vec<u8>)
    ensures
        copy@ == bytes@,
{
    vstd::slice::slice_to_vec(bytes.as_slice())
}

/// Reads the text under `key`.
fn read_text(fields: &BencodeDict, key: &[u8]) -> (r: Result<Option<String>, ParseError>)
    ensures
        text_field(fields@, key@) == match r {
            Ok(text) => Ok(text_model(text)),
            Err(e) => Err(e),
        },
{
    match fields.get(key) {
        None => Ok(None),
        Some(BencodeValue::ByteString(b)) => match string_from_utf8(b.as_slice()) {
            Some(s) => Ok(Some(s)),
            None => Err(ParseError::InvalidUtf8),
        },
        Some(_) => Err(ParseError::TypeMismatch),
    }
}

/// Reads the piece length.
fn read_piece_length(fields: &BencodeDict) -> (r: Result<u64, ParseError>)
    ensures
        r == piece_length_field(fields@),
{
    match fields.get("piece length".as_bytes()) {
        None => Err(ParseError::MissingField(FieldName::PieceLength)),
        Some(BencodeValue::Integer(i)) => if *i > 0 {
            Ok(*i as u64)
        } else {
            Err(ParseError::TypeMismatch)
        },
        Some(_) => Err(ParseError::TypeMismatch),
    }
}

/// Reads the meta version.
fn read_meta_version(fields: &BencodeDict) -> (r: Result<Option<i8>, ParseError>)
    ensures
        r == meta_version_field(fields@),
{
    match fields.get("meta version".as_bytes()) {
        None => Ok(None),
        Some(BencodeValue::Integer(i)) => if -128 <= *i && *i <= 127 {
            Ok(Some(*i as i8))
        } else {
            Err(ParseError::TypeMismatch)
        },
        Some(_) => Err(ParseError::TypeMismatch),
    }
}

/// Reads a length.
fn read_length(value: &BencodeValue) -> (r: Option<u64>)
    ensures
        r is Some == is_length(value@),
        r is Some ==> r->Some_0 == value@->Integer_0 as u64,
{
    match value {
        BencodeValue::Integer(i) => if *i >= 0 {
            Some(*i as u64)
        } else {
            None
        },
        _ => None,
    }
}

/// Reads a path.
fn read_path(value: &BencodeValue) -> (r: Option<Vec<Vec<u8>>>)
    ensures
        r is Some == is_path(value@),
        r is Some ==> r->Some_0.deep_view() == path_segments(value@),
{
    match value {
        BencodeValue::List(items) => {
            proof {
                lemma_list_view(*items);
            }
            let ghost model = items_model(items@);
            let mut path: Vec<Vec<u8>> = Vec::new();
            let mut k: usize = 0;
            while k < items.len()
                invariant
                    k <= items.len(),
                    model == items_model(items@),
                    value@ == Bencode::List(model),
                    path.len() == k,
                    forall|j: int| 0 <= j < k ==> #[trigger] model[j] is Bytes,
                    forall|j: int| 0 <= j < k ==> (#[trigger] path[j])@ == model[j]->Bytes_0,
                decreases items.len() - k,
            {
                match &items[k] {
                    BencodeValue::ByteString(segment) => {
                        path.push(copy_bytes(segment));
                    },
                    _ => {
                        assert(!(model[k as int] is Bytes));
                        return None;
                    },
                }
                k = k + 1;
            }
            assert(path.deep_view() =~= path_segments(value@)) by {
                assert forall|j: int| 0 <= j < path.len() implies path.deep_view()[j]
                    == path_segments(value@)[j] by {
                    assert(path.deep_view()[j] == path[j].deep_view());
                    assert(path[j].deep_view() =~= path[j]@);
                }
            }
            Some(path)
        },
        _ => None,
    }
}

/// Reads the description of one file.
fn read_file(value: &BencodeValue) -> (r: Option<FileInfo>)
    ensures
        r is Some == is_file_entry(value@),
        r is Some ==> r->Some_0@ == file_entry(value@),
{
    match value {
        BencodeValue::Dict(fields) => {
            let length = match fields.get("length".as_bytes()) {
                Some(length_value) => match read_length(length_value) {
                    Some(length) => length,
                    None => {
                        return None;
                    },
                },
                None => {
                    return None;
                },
            };
            let path = match fields.get("path".as_bytes()) {
                Some(path_value) => match read_path(path_value) {
                    Some(path) => path,
                    None => {
                        return None;
                    },
                },
                None => {
                    return None;
                },
            };
            Some(FileInfo { length, path })
        },
        _ => None,
    }
}

/// Reads the list of files.
fn read_files(value: &BencodeValue) -> (r: Result<Vec<FileInfo>, ParseError>)
    ensures
        files_field(value@) == match r {
            Ok(files) => Ok(files_model(files@)),
            Err(e) => Err(e),
        },
{
    match value {
        BencodeValue::List(items) => {
            proof {
                lemma_list_view(*items);
            }
            let ghost model = items_model(items@);
            let ghost all = file_entries(model);
            let mut files: Vec<FileInfo> = Vec::new();
            let mut total: u64 = 0;
            let mut k: usize = 0;
            assert(all.subrange(0, 0) =~= Seq::<FileModel>::empty());
            while k < items.len()
                invariant
                    k <= items.len(),
                    model == items_model(items@),
                    all == file_entries(model),
                    value@ == Bencode::List(model),
                    files.len() == k,
                    forall|j: int| 0 <= j < k ==> is_file_entry(#[trigger] model[j]),
                    files_model(files@) == all.subrange(0, k as int),
                    total == total_length(all.subrange(0, k as int)),
                decreases items.len() - k,
            {
                let file = match read_file(&items[k]) {
                    Some(file) => file,
                    None => {
                        assert(!is_file_entry(model[k as int]));
                        return Err(ParseError::TypeMismatch);
                    },
                };
                proof {
                    let longer = all.subrange(0, k + 1);
                    assert(longer.drop_last() =~= all.subrange(0, k as int));
                    assert(longer.last() == file@);
                }
                if file.length > u64::MAX - total {
                    proof {
                        lemma_total_length_prefix(all, k + 1);
                    }
                    return Err(ParseError::TypeMismatch);
                }
                total = total + file.length;
                let ghost before = files_model(files@);
                let ghost added = file@;
                files.push(file);
                assert(files_model(files@) =~= before.push(added));
                assert(all.subrange(0, k + 1) =~= all.subrange(0, k as int).push(added));
                k = k + 1;
            }
            assert(all.subrange(0, items.len() as int) =~= all);
            Ok(files)
        },
        _ => Err(ParseError::TypeMismatch),
    }
}

/// Reads what the torrent holds.
fn read_layout(fields: &BencodeDict) -> (r: Result<TorrentFileInfo, ParseError>)
    ensures
        layout_field(fields@) == result_model(r),
{
    match (fields.get("length".as_bytes()), fields.get("files".as_bytes())) {
        (Some(_), Some(_)) => Err(ParseError::AmbiguousLayout),
        (None, None) => Err(ParseError::MissingLayout),
        (Some(length_value), None) => match read_length(length_value) {
            Some(length) => Ok(TorrentFileInfo::SingleFile { length }),
            None => Err(ParseError::TypeMismatch),
        },
        (None, Some(files_value)) => match read_files(files_value) {
            Ok(files) => Ok(TorrentFileInfo::MultipleFiles { files }),
            Err(e) => Err(e),
        },
    }
}

/// Reads the typed `info` dictionary.
fn read_info(fields: &BencodeDict) -> (r: Result<Info, ParseError>)
    ensures
        info_of(fields@) == result_model(r),
{
    let name = match read_text(fields, "name".as_bytes()) {
        Ok(name) => name,
        Err(e) => {
            return Err(e);
        },
    };
    let piece_length = match read_piece_length(fields) {
        Ok(piece_length) => piece_length,
        Err(e) => {
            return Err(e);
        },
    };
    let meta_version = match read_meta_version(fields) {
        Ok(meta_version) => meta_version,
        Err(e) => {
            return Err(e);
        },
    };
    let file = match read_layout(fields) {
        Ok(file) => file,
        Err(e) => {
            return Err(e);
        },
    };
    Ok(Info { name, piece_length, meta_version, file })
}

/// Reads a torrent file from the document `doc`.
pub fn torrent_from_document(doc: &BencodeValue) -> (r: Result<TorrentFile, ParseError>)
    ensures
        torrent_of(doc@) == result_model(r),
        r matches Ok(torrent) ==> is_sound(torrent@),
{
    let top = match doc {
        BencodeValue::Dict(top) => top,
        _ => {
            return Err(ParseError::TypeMismatch);
        },
    };
    let announce = match read_text(top, "announce".as_bytes()) {
        Ok(announce) => announce,
        Err(e) => {
            return Err(e);
        },
    };
    let info_value = match top.get("info".as_bytes()) {
        Some(info_value) => info_value,
        None => {
            return Err(ParseError::MissingField(FieldName::Info));
        },
    };
    let fields = match info_value {
        BencodeValue::Dict(fields) => fields,
        _ => {
            return Err(ParseError::TypeMismatch);
        },
    };
    let canonical = serialize(info_value);
    let info_hash = sha1_of(canonical.as_slice());
    let info = match read_info(fields) {
        Ok(info) => info,
        Err(e) => {
            return Err(e);
        },
    };
    Ok(TorrentFile { announce, info, info_hash })
}

/// Reads a torrent file. The bytes are read as a bencode document first;
/// the `info` value is then written back in canonical form and hashed with
/// SHA-1, and only after that read as typed metadata.
///
/// Fails with `MalformedEncoding` where the bytes are no bencode, with
/// `TypeMismatch` where the document, `info`, or a field has the wrong shape
/// (a piece length that is not positive and file lengths that together
/// exceed 64 bits count as such), with `MissingField` where `info` or
/// `piece length` is absent, with `InvalidUtf8` where `announce` or `name`
/// is no text, and with `AmbiguousLayout` or `MissingLayout` where `info`
/// holds both or neither of `length` and `files`.
pub fn parse_torrent(bytes: &[u8]) -> (r: Result<TorrentFile, ParseError>)
    ensures
        torrent_of_bytes(bytes@) == result_model(r),
        r matches Ok(torrent) ==> is_sound(torrent@),
{
    match parse(bytes) {
        Err(e) => Err(e),
        Ok(doc) => torrent_from_document(&doc),
    }
}

} // verus!
