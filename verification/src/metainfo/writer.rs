//! Writing typed metadata back as a bencode document, to hash it.

use vstd::prelude::*;
use vstd::string::StringSliceAdditionalSpecFns;
use vstd::utf8::encode_utf8;
use crate::bencode::grammar::encode;
use crate::bencode::model::{key_lt, lemma_insert_at_end, Bencode, Entries};
use crate::bencode::value::{items_model, lemma_list_view, BencodeDict, BencodeValue};
use crate::bencode::writer::serialize;
use crate::digest::{sha1_digest, sha1_of};
use crate::metainfo::document::{
    files_key, length_key, meta_version_key, name_key, path_key, piece_length_key,
};
use crate::metainfo::model::{
    files_model, FileInfo, FileModel, Info, InfoHash, InfoModel, LayoutModel, TorrentFileInfo,
};

verus! {

/// Whether a length can stand in a bencode document, whose integers have
/// 64 signed bits.
pub open spec fn is_writable(length: u64) -> bool {
    length <= i64::MAX
}

/// Whether every length of `layout` can stand in a bencode document.
pub open spec fn layout_is_writable(layout: LayoutModel) -> bool {
    match layout {
        LayoutModel::SingleFile { length } => is_writable(length),
        LayoutModel::MultipleFiles { files } => forall|k: int|
            0 <= k < files.len() ==> is_writable((#[trigger] files[k]).length),
    }
}

/// Whether every number of `info` can stand in a bencode document.
pub open spec fn info_is_writable(info: InfoModel) -> bool {
    is_writable(info.piece_length) && layout_is_writable(info.file)
}

/// A path as a list of byte strings.
pub open spec fn path_document(path: Seq<Seq<u8>>) -> Bencode {
    Bencode::List(Seq::new(path.len(), |k: int| Bencode::Bytes(path[k])))
}

/// A file as a dictionary with `length` and `path`.
pub open spec fn file_document(file: FileModel) -> Bencode {
    Bencode::Dict(
        seq![
            (length_key(), Bencode::Integer(file.length as int)),
            (path_key(), path_document(file.path)),
        ],
    )
}

/// What stands for the layout in an `info` dictionary: `length` for one
/// file, `files` for several.
pub open spec fn layout_entry(layout: LayoutModel) -> (Seq<u8>, Bencode) {
    match layout {
        LayoutModel::SingleFile { length } => (length_key(), Bencode::Integer(length as int)),
        LayoutModel::MultipleFiles { files } => (
            files_key(),
            Bencode::List(Seq::new(files.len(), |k: int| file_document(files[k]))),
        ),
    }
}

/// One entry, or none.
pub open spec fn optional_entry(key: Seq<u8>, value: Option<Bencode>) -> Entries {
    match value {
        Some(v) => seq![(key, v)],
        None => Seq::empty(),
    }
}

/// Typed metadata as an `info` dictionary: the layout, the meta version
/// and the name where there are any, and the piece length, in ascending
/// order of their keys.
pub open spec fn info_document(info: InfoModel) -> Bencode {
    Bencode::Dict(
        seq![layout_entry(info.file)] + optional_entry(
            meta_version_key(),
            match info.meta_version {
                Some(v) => Some(Bencode::Integer(v as int)),
                None => None,
            },
        ) + optional_entry(
            name_key(),
            match info.name {
                Some(name) => Some(Bencode::Bytes(encode_utf8(name))),
                None => None,
            },
        ) + seq![(piece_length_key(), Bencode::Integer(info.piece_length as int))],
    )
}

/// The keys of an `info` dictionary and of a file, in their order.
proof fn lemma_key_order()
    ensures
        key_lt(files_key(), meta_version_key()),
        key_lt(length_key(), meta_version_key()),
        key_lt(meta_version_key(), name_key()),
        key_lt(name_key(), piece_length_key()),
        key_lt(files_key(), name_key()),
        key_lt(length_key(), name_key()),
        key_lt(files_key(), piece_length_key()),
        key_lt(length_key(), piece_length_key()),
        key_lt(meta_version_key(), piece_length_key()),
        key_lt(length_key(), path_key()),
{
    reveal_strlit("files");
    reveal_strlit("length");
    reveal_strlit("meta version");
    reveal_strlit("name");
    reveal_strlit("piece length");
    reveal_strlit("path");
    vstd::string::is_ascii_spec_bytes("files");
    vstd::string::is_ascii_spec_bytes("length");
    vstd::string::is_ascii_spec_bytes("meta version");
    vstd::string::is_ascii_spec_bytes("name");
    vstd::string::is_ascii_spec_bytes("piece length");
    vstd::string::is_ascii_spec_bytes("path");
    assert(vstd::string::is_ascii("files"));
    assert(vstd::string::is_ascii("length"));
    assert(vstd::string::is_ascii("meta version"));
    assert(vstd::string::is_ascii("name"));
    assert(vstd::string::is_ascii("piece length"));
    assert(vstd::string::is_ascii("path"));
    assert(files_key()[0] == 0x66);
    assert(length_key()[0] == 0x6c);
    assert(meta_version_key()[0] == 0x6d);
    assert(name_key()[0] == 0x6e);
    assert(piece_length_key()[0] == 0x70);
    assert(path_key()[0] == 0x70);
}

/// Puts an entry behind the entries of `dict`, whose keys all come before
/// `key`.
fn append_entry(dict: &mut BencodeDict, key: &str, value: BencodeValue)
    requires
        forall|i: int| 0 <= i < old(dict)@.len() ==> key_lt(
            (#[trigger] old(dict)@[i]).0,
            key.spec_bytes(),
        ),
    ensures
        final(dict)@ == old(dict)@.push((key.spec_bytes(), value@)),
{
    proof {
        lemma_insert_at_end(dict@, key.spec_bytes(), value@);
    }
    let added = dict.insert(vstd::slice::slice_to_vec(key.as_bytes()), value);
}

/// A length as a bencode integer, if it can stand in a document.
fn length_value(length: u64) -> (value: Option<BencodeValue>)
    ensures
        value is Some == is_writable(length),
        value matches Some(v) ==> v@ == Bencode::Integer(length as int),
{
    if length <= 0x7fff_ffff_ffff_ffff {
        Some(BencodeValue::Integer(length as i64))
    } else {
        None
    }
}

/// A path as a list of byte strings.
fn path_value(path: &Vec<Vec<u8>>) -> (value: BencodeValue)
    ensures
        value@ == path_document(path.deep_view()),
{
    let mut segments: Vec<BencodeValue> = Vec::new();
    let mut k: usize = 0;
    while k < path.len()
        invariant
            k <= path.len(),
            segments.len() == k,
            forall|j: int| 0 <= j < k ==> (#[trigger] segments[j])@ == Bencode::Bytes(path[j]@),
        decreases path.len() - k,
    {
        segments.push(BencodeValue::ByteString(vstd::slice::slice_to_vec(path[k].as_slice())));
        k = k + 1;
    }
    proof {
        lemma_list_view(segments);
        assert(items_model(segments@) =~= path_document(path.deep_view())->List_0) by {
            assert forall|j: int| 0 <= j < path.len() implies items_model(segments@)[j]
                == path_document(path.deep_view())->List_0[j] by {
                assert(path.deep_view()[j] == path[j].deep_view());
                assert(path[j].deep_view() =~= path[j]@);
            }
        }
    }
    BencodeValue::List(segments)
}

/// A file as a dictionary, if its length can stand in a document.
fn file_value(file: &FileInfo) -> (value: Option<BencodeValue>)
    ensures
        value is Some == is_writable(file.length),
        value matches Some(v) ==> v@ == file_document(file@),
{
    let length = match length_value(file.length) {
        Some(length) => length,
        None => {
            return None;
        },
    };
    proof {
        lemma_key_order();
    }
    let mut dict = BencodeDict::new();
    append_entry(&mut dict, "length", length);
    append_entry(&mut dict, "path", path_value(&file.path));
    assert(dict@ =~= file_document(file@)->Dict_0);
    Some(BencodeValue::Dict(dict))
}

/// The layout as the value that stands under its key, if its lengths can
/// stand in a document.
fn layout_value(layout: &TorrentFileInfo) -> (value: Option<BencodeValue>)
    ensures
        value is Some == layout_is_writable(layout@),
        value matches Some(v) ==> v@ == layout_entry(layout@).1,
{
    match layout {
        TorrentFileInfo::SingleFile { length } => length_value(*length),
        TorrentFileInfo::MultipleFiles { files } => {
            let ghost model = files_model(files@);
            let mut items: Vec<BencodeValue> = Vec::new();
            let mut k: usize = 0;
            while k < files.len()
                invariant
                    k <= files.len(),
                    model == files_model(files@),
                    layout@ == (LayoutModel::MultipleFiles { files: model }),
                    items.len() == k,
                    forall|j: int| 0 <= j < k ==> is_writable((#[trigger] model[j]).length),
                    forall|j: int| 0 <= j < k ==> (#[trigger] items[j])@ == file_document(model[j]),
                decreases files.len() - k,
            {
                match file_value(&files[k]) {
                    Some(item) => {
                        items.push(item);
                    },
                    None => {
                        assert(model[k as int] == files[k as int]@);
                        assert(!is_writable(model[k as int].length));
                        assert(layout@->MultipleFiles_files == model);
                        assert(!layout_is_writable(layout@));
                        return None;
                    },
                }
                k = k + 1;
            }
            proof {
                lemma_list_view(items);
                assert(items_model(items@) =~= layout_entry(layout@).1->List_0);
            }
            Some(BencodeValue::List(items))
        },
    }
}

/// Typed metadata as an `info` dictionary, if its numbers can stand in a
/// document.
pub fn info_value(info: &Info) -> (value: Option<BencodeValue>)
    ensures
        value is Some == info_is_writable(info@),
        value matches Some(v) ==> v@ == info_document(info@),
{
    let piece_length = match length_value(info.piece_length) {
        Some(piece_length) => piece_length,
        None => {
            return None;
        },
    };
    let layout = match layout_value(&info.file) {
        Some(layout) => layout,
        None => {
            return None;
        },
    };
    proof {
        lemma_key_order();
    }
    let mut dict = BencodeDict::new();
    match &info.file {
        TorrentFileInfo::SingleFile { .. } => {
            append_entry(&mut dict, "length", layout);
        },
        TorrentFileInfo::MultipleFiles { .. } => {
            append_entry(&mut dict, "files", layout);
        },
    }
    match info.meta_version {
        Some(version) => {
            append_entry(&mut dict, "meta version", BencodeValue::Integer(version as i64));
        },
        None => {},
    }
    match &info.name {
        Some(name) => {
            let bytes = vstd::slice::slice_to_vec(name.as_str().as_bytes());
            append_entry(&mut dict, "name", BencodeValue::ByteString(bytes));
        },
        None => {},
    }
    append_entry(&mut dict, "piece length", piece_length);
    assert(dict@ =~= info_document(info@)->Dict_0);
    Some(BencodeValue::Dict(dict))
}

/// The hash of typed metadata: SHA-1 of the canonical bytes of the `info`
/// dictionary that holds the layout, the meta version, the name and the
/// piece length. A torrent file's own hash is this one only where its
/// `info` has no other key. Gives `None` where a number of `info` exceeds
/// 64 signed bits and so can stand in no document.
pub fn parse_info_hash(metadata_info: &Info) -> (hash: Option<InfoHash>)
    ensures
        hash is Some == info_is_writable(metadata_info@),
        hash matches Some(h) ==> h@ == sha1_digest(encode(info_document(metadata_info@))),
{
    match info_value(metadata_info) {
        Some(value) => {
            let bytes = serialize(&value);
            Some(sha1_of(bytes.as_slice()))
        },
        None => None,
    }
}

} // verus!
