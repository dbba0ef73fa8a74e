//! What a bencode document says as a torrent file.

use vstd::prelude::*;
use vstd::string::StringSliceAdditionalSpecFns;
use vstd::utf8::{decode_utf8, valid_utf8};
use crate::bencode::grammar::{decode, encode};
use crate::bencode::model::{lookup, Bencode, Entries};
use crate::digest::sha1_digest;
use crate::errors::{FieldName, ParseError};
use crate::metainfo::model::{
    layout_size, total_length, FileModel, InfoModel, LayoutModel, TorrentModel,
};

verus! {

/// The key `announce`.
pub open spec fn announce_key() -> Seq<u8> {
    "announce".spec_bytes()
}

/// The key `info`.
pub open spec fn info_key() -> Seq<u8> {
    "info".spec_bytes()
}

/// The key `name`.
pub open spec fn name_key() -> Seq<u8> {
    "name".spec_bytes()
}

/// The key `piece length`.
pub open spec fn piece_length_key() -> Seq<u8> {
    "piece length".spec_bytes()
}

/// The key `meta version`.
pub open spec fn meta_version_key() -> Seq<u8> {
    "meta version".spec_bytes()
}

/// The key `length`.
pub open spec fn length_key() -> Seq<u8> {
    "length".spec_bytes()
}

/// The key `files`.
pub open spec fn files_key() -> Seq<u8> {
    "files".spec_bytes()
}

/// The key `path`.
pub open spec fn path_key() -> Seq<u8> {
    "path".spec_bytes()
}

/// The text under `key`, which need not be there. What is there must be a
/// byte string that holds UTF-8.
pub open spec fn text_field(fields: Entries, key: Seq<u8>) -> Result<
    Option<Seq<char>>,
    ParseError,
> {
    match lookup(fields, key) {
        None => Ok(None),
        Some(Bencode::Bytes(b)) => if valid_utf8(b) {
            Ok(Some(decode_utf8(b)))
        } else {
            Err(ParseError::InvalidUtf8)
        },
        Some(_) => Err(ParseError::TypeMismatch),
    }
}

/// The piece length, which must be there and be a positive integer.
pub open spec fn piece_length_field(fields: Entries) -> Result<u64, ParseError> {
    match lookup(fields, piece_length_key()) {
        None => Err(ParseError::MissingField(FieldName::PieceLength)),
        Some(Bencode::Integer(i)) => if 0 < i <= u64::MAX {
            Ok(i as u64)
        } else {
            Err(ParseError::TypeMismatch)
        },
        Some(_) => Err(ParseError::TypeMismatch),
    }
}

/// The meta version, which need not be there. What is there must be an
/// integer of eight signed bits.
pub open spec fn meta_version_field(fields: Entries) -> Result<Option<i8>, ParseError> {
    match lookup(fields, meta_version_key()) {
        None => Ok(None),
        Some(Bencode::Integer(i)) => if i8::MIN <= i <= i8::MAX {
            Ok(Some(i as i8))
        } else {
            Err(ParseError::TypeMismatch)
        },
        Some(_) => Err(ParseError::TypeMismatch),
    }
}

/// Whether `value` is a length: an integer that is not negative.
pub open spec fn is_length(value: Bencode) -> bool {
    value matches Bencode::Integer(i) && 0 <= i <= u64::MAX
}

/// Whether `value` is a path: a list of byte strings.
pub open spec fn is_path(value: Bencode) -> bool {
    value matches Bencode::List(segments) && forall|k: int|
        0 <= k < segments.len() ==> #[trigger] segments[k] is Bytes
}

/// The segments of a path.
pub open spec fn path_segments(value: Bencode) -> Seq<Seq<u8>> {
    Seq::new(value->List_0.len(), |k: int| value->List_0[k]->Bytes_0)
}

/// Whether `value` describes a file: a dictionary with a length under
/// `length` and a path under `path`.
pub open spec fn is_file_entry(value: Bencode) -> bool {
    value matches Bencode::Dict(fields) && (lookup(fields, length_key()) matches Some(length)
        && is_length(length)) && (lookup(fields, path_key()) matches Some(path) && is_path(path))
}

/// The file that `value` describes.
pub open spec fn file_entry(value: Bencode) -> FileModel {
    FileModel {
        length: lookup(value->Dict_0, length_key())->Some_0->Integer_0 as u64,
        path: path_segments(lookup(value->Dict_0, path_key())->Some_0),
    }
}

/// The files that list items describe.
pub open spec fn file_entries(items: Seq<Bencode>) -> Seq<FileModel> {
    Seq::new(items.len(), |k: int| file_entry(items[k]))
}

/// The files under `files`: the value must be a list, each item must
/// describe a file, and the lengths together must fit in 64 bits.
pub open spec fn files_field(value: Bencode) -> Result<Seq<FileModel>, ParseError> {
    if value matches Bencode::List(items) && (forall|k: int|
        0 <= k < items.len() ==> is_file_entry(#[trigger] items[k])) && total_length(
        file_entries(items),
    ) <= u64::MAX {
        Ok(file_entries(value->List_0))
    } else {
        Err(ParseError::TypeMismatch)
    }
}

/// What the torrent holds: `length` makes it one file, `files` several.
/// Both together are ambiguous, and one of them must be there.
pub open spec fn layout_field(fields: Entries) -> Result<LayoutModel, ParseError> {
    match (lookup(fields, length_key()), lookup(fields, files_key())) {
        (Some(_), Some(_)) => Err(ParseError::AmbiguousLayout),
        (None, None) => Err(ParseError::MissingLayout),
        (Some(length), None) => if is_length(length) {
            Ok(LayoutModel::SingleFile { length: length->Integer_0 as u64 })
        } else {
            Err(ParseError::TypeMismatch)
        },
        (None, Some(files)) => match files_field(files) {
            Ok(files) => Ok(LayoutModel::MultipleFiles { files }),
            Err(e) => Err(e),
        },
    }
}

/// The typed `info` dictionary. The fields are looked at in the order
/// name, piece length, meta version, layout, and the first fault is the
/// error.
pub open spec fn info_of(fields: Entries) -> Result<InfoModel, ParseError> {
    match text_field(fields, name_key()) {
        Err(e) => Err(e),
        Ok(name) => match piece_length_field(fields) {
            Err(e) => Err(e),
            Ok(piece_length) => match meta_version_field(fields) {
                Err(e) => Err(e),
                Ok(meta_version) => match layout_field(fields) {
                    Err(e) => Err(e),
                    Ok(file) => Ok(InfoModel { name, piece_length, meta_version, file }),
                },
            },
        },
    }
}

/// The torrent file that the document `doc` describes. The document must
/// be a dictionary; `announce` is looked at first, then `info`, which must
/// be there and be a dictionary. The hash is taken over the canonical bytes
/// of the `info` value as the document holds it, with every key it has.
pub open spec fn torrent_of(doc: Bencode) -> Result<TorrentModel, ParseError> {
    match doc {
        Bencode::Dict(top) => match text_field(top, announce_key()) {
            Err(e) => Err(e),
            Ok(announce) => match lookup(top, info_key()) {
                None => Err(ParseError::MissingField(FieldName::Info)),
                Some(Bencode::Dict(fields)) => match info_of(fields) {
                    Err(e) => Err(e),
                    Ok(info) => Ok(
                        TorrentModel {
                            announce,
                            info,
                            info_hash: sha1_digest(encode(Bencode::Dict(fields))),
                        },
                    ),
                },
                Some(_) => Err(ParseError::TypeMismatch),
            },
        },
        _ => Err(ParseError::TypeMismatch),
    }
}

/// The torrent file that `bytes` hold.
pub open spec fn torrent_of_bytes(bytes: Seq<u8>) -> Result<TorrentModel, ParseError> {
    match decode(bytes) {
        Err(offset) => Err(ParseError::MalformedEncoding { offset: offset as usize }),
        Ok(doc) => torrent_of(doc),
    }
}

/// Whether a torrent file is as reading leaves it: the piece length is
/// positive and the size fits in 64 bits.
pub open spec fn is_sound(torrent: TorrentModel) -> bool {
    torrent.info.piece_length > 0 && layout_size(torrent.info.file) <= u64::MAX
        && torrent.info_hash.len() == 20
}

} // verus!
