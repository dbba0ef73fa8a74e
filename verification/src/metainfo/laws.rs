//! What holds of every torrent file that is read.

use vstd::prelude::*;
use crate::bencode::model::{lookup, Bencode, Entries};
use crate::errors::{result_model, ParseError};
use crate::metainfo::document::{
    files_key, info_key, info_of, length_key, meta_version_field, name_key, piece_length_field,
    text_field, torrent_of, torrent_of_bytes,
};
use crate::metainfo::model::{InfoModel, TorrentFile};

verus! {

/// The same bytes give the same hash: two readings of one run of bytes
/// fail alike, or succeed alike with equal metadata and equal hashes.
pub proof fn law_same_bytes_same_hash(
    bytes: Seq<u8>,
    first: Result<TorrentFile, ParseError>,
    second: Result<TorrentFile, ParseError>,
)
    requires
        torrent_of_bytes(bytes) == result_model(first),
        torrent_of_bytes(bytes) == result_model(second),
    ensures
        first is Ok == second is Ok,
        first is Ok ==> first->Ok_0@ == second->Ok_0@ && first->Ok_0.info_hash
            == second->Ok_0.info_hash,
        first is Err ==> first->Err_0 == second->Err_0,
{
    if first is Ok {
        let a = first->Ok_0;
        let b = second->Ok_0;
        assert(a@.info_hash == b@.info_hash);
        assert(a.info_hash =~= b.info_hash);
    }
}

/// An `info` dictionary with both `length` and `files` is refused as
/// ambiguous, and one with neither as lacking a layout, if its other
/// fields are in order; what is read has exactly one of the two.
pub proof fn law_layout_exactly_one(fields: Entries)
    requires
        text_field(fields, name_key()) is Ok,
        piece_length_field(fields) is Ok,
        meta_version_field(fields) is Ok,
    ensures
        lookup(fields, length_key()) is Some && lookup(fields, files_key()) is Some ==> info_of(
            fields,
        ) == Err::<InfoModel, ParseError>(ParseError::AmbiguousLayout),
        lookup(fields, length_key()) is None && lookup(fields, files_key()) is None ==> info_of(
            fields,
        ) == Err::<InfoModel, ParseError>(ParseError::MissingLayout),
{
}

/// Whatever the other fields hold, metadata is read only from an `info`
/// dictionary that has exactly one of `length` and `files`, and the layout
/// read is the one that is there.
pub proof fn law_layout_of_what_is_read(doc: Bencode)
    requires
        torrent_of(doc) is Ok,
    ensures
        doc is Dict,
        lookup(doc->Dict_0, info_key()) matches Some(Bencode::Dict(fields)) && ((lookup(
            fields,
            length_key(),
        ) is Some) != (lookup(fields, files_key()) is Some)) && ((lookup(fields, length_key())
            is Some) == (torrent_of(doc)->Ok_0.info.file is SingleFile)),
{
}

} // verus!
