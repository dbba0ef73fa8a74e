//! A torrent as the client keeps it: made from a file's bytes, and turned
//! into and made from the record that the store holds.

use vstd::prelude::*;
use vstd::string::StringExecFns;
use crate::errors::ParseError;
use crate::metainfo::document::{is_sound, torrent_of_bytes};
use crate::metainfo::model::{
    files_model, layout_size, text_model, total_length, FileModel, Torrent, TorrentFile,
    TorrentFileInfo,
};
use crate::metainfo::reader::parse_torrent;

verus! {

/// What the store holds of a torrent.
#[derive(Clone, Debug, PartialEq, Eq)]
pub struct TorrentRecord {
    pub name: String,
    pub file_path: String,
    pub announce_url: String,
    pub raw_bytes: Vec<u8>,
    pub size: u64,
    pub downloaded: u64,
    pub uploaded: u64,
}

/// The name of a torrent whose file gives none.
pub open spec fn unnamed() -> Seq<char> {
    "Unknown to foom"@
}

/// What follows the name of every torrent.
pub open spec fn name_suffix() -> Seq<char> {
    " Top Level Container"@
}

/// What the store holds in place of a text that is not there.
pub open spec fn absent() -> Seq<char> {
    "None"@
}

/// `text`, or `fallback` where there is none.
pub open spec fn text_or(text: Option<Seq<char>>, fallback: Seq<char>) -> Seq<char> {
    match text {
        Some(t) => t,
        None => fallback,
    }
}

/// A copy of `text`, or `fallback` where there is none.
fn copy_text_or(text: &Option<String>, fallback: &str) -> (copy: String)
    ensures
        copy@ == text_or(text_model(*text), fallback@),
{
    match text {
        Some(t) => t.clone(),
        None => String::from_str(fallback),
    }
}

/// The size of a torrent, however large: the length of its one file, or
/// the sum of the lengths of its files.
pub fn full_size(torrent_file: &TorrentFile) -> (size: u128)
    ensures
        size == layout_size(torrent_file@.info.file),
{
    match &torrent_file.info.file {
        TorrentFileInfo::SingleFile { length } => *length as u128,
        TorrentFileInfo::MultipleFiles { files } => {
            let ghost all = files_model(files@);
            let mut total: u128 = 0;
            let mut k: usize = 0;
            assert(all.subrange(0, 0) =~= Seq::<FileModel>::empty());
            while k < files.len()
                invariant
                    k <= files.len(),
                    all == files_model(files@),
                    total == total_length(all.subrange(0, k as int)),
                    total <= k * 0xffff_ffff_ffff_ffff,
                decreases files.len() - k,
            {
                proof {
                    let longer = all.subrange(0, k + 1);
                    assert(longer.drop_last() =~= all.subrange(0, k as int));
                    assert(longer.last() == files[k as int]@);
                }
                total = total + files[k].length as u128;
                k = k + 1;
            }
            assert(all.subrange(0, files.len() as int) =~= all);
            total
        },
    }
}

/// The total size of a torrent: the length of its one file, or the sum of
/// the lengths of its files, where that fits in 64 bits, as it does for
/// every torrent file that was read.
pub fn get_size(torrent_file: &TorrentFile) -> (size: u64)
    requires
        layout_size(torrent_file@.info.file) <= u64::MAX,
    ensures
        size == layout_size(torrent_file@.info.file),
{
    full_size(torrent_file) as u64
}

/// Makes the torrent that the bytes of the file at `file_name` hold.
/// Nothing is downloaded or uploaded yet, the size is that of the files,
/// and the name is the one that `info` gives, or a stand-in, followed by a
/// fixed suffix. Fails as [`parse_torrent`] fails.
pub fn load_torrent(file_name: &str, file_bytes: Vec<u8>) -> (r: Result<Torrent, ParseError>)
    ensures
        torrent_of_bytes(file_bytes@) == match r {
            Ok(torrent) => Ok(torrent.torrent_file@),
            Err(e) => Err(e),
        },
        r matches Ok(torrent) ==> {
            &&& is_sound(torrent.torrent_file@)
            &&& torrent.name@ == text_or(torrent.torrent_file@.info.name, unnamed())
                + name_suffix()
            &&& torrent.file_path@ == file_name@
            &&& torrent.raw_bytes@ == file_bytes@
            &&& torrent.announce_url is None
            &&& torrent.size == layout_size(torrent.torrent_file@.info.file)
            &&& torrent.downloaded == 0
            &&& torrent.uploaded == 0
        },
{
    let torrent_file = match parse_torrent(file_bytes.as_slice()) {
        Ok(torrent_file) => torrent_file,
        Err(e) => {
            return Err(e);
        },
    };
    let mut name = copy_text_or(&torrent_file.info.name, "Unknown to foom");
    name.append(" Top Level Container");
    let size = get_size(&torrent_file);
    Ok(
        Torrent {
            torrent_file,
            name,
            file_path: String::from_str(file_name),
            announce_url: None,
            raw_bytes: file_bytes,
            size,
            downloaded: 0,
            uploaded: 0,
        },
    )
}

/// What the store is to hold of `torrent`: the name that `info` gives and
/// the tracker's URL, each replaced by `None` as text where the file has
/// none, the path, the file's bytes and the counters.
pub fn record_of(torrent: &Torrent) -> (record: TorrentRecord)
    ensures
        record.name@ == text_or(torrent.torrent_file@.info.name, absent()),
        record.file_path@ == torrent.file_path@,
        record.announce_url@ == text_or(torrent.torrent_file@.announce, absent()),
        record.raw_bytes@ == torrent.raw_bytes@,
        record.size == torrent.size,
        record.downloaded == torrent.downloaded,
        record.uploaded == torrent.uploaded,
{
    TorrentRecord {
        name: copy_text_or(&torrent.torrent_file.info.name, "None"),
        file_path: torrent.file_path.clone(),
        announce_url: copy_text_or(&torrent.torrent_file.announce, "None"),
        raw_bytes: vstd::slice::slice_to_vec(torrent.raw_bytes.as_slice()),
        size: torrent.size,
        downloaded: torrent.downloaded,
        uploaded: torrent.uploaded,
    }
}

/// Makes the torrent that `record` describes: the stored bytes are read
/// again as a torrent file, and the other fields are taken as stored.
/// Fails as [`parse_torrent`] fails on the stored bytes.
pub fn torrent_of_record(record: TorrentRecord) -> (r: Result<Torrent, ParseError>)
    ensures
        torrent_of_bytes(record.raw_bytes@) == match r {
            Ok(torrent) => Ok(torrent.torrent_file@),
            Err(e) => Err(e),
        },
        r matches Ok(torrent) ==> {
            &&& is_sound(torrent.torrent_file@)
            &&& torrent.name@ == record.name@
            &&& torrent.file_path@ == record.file_path@
            &&& text_model(torrent.announce_url) == Some(record.announce_url@)
            &&& torrent.raw_bytes@ == record.raw_bytes@
            &&& torrent.size == record.size
            &&& torrent.downloaded == record.downloaded
            &&& torrent.uploaded == record.uploaded
        },
{
    let torrent_file = match parse_torrent(record.raw_bytes.as_slice()) {
        Ok(torrent_file) => torrent_file,
        Err(e) => {
            return Err(e);
        },
    };
    Ok(
        Torrent {
            torrent_file,
            name: record.name,
            file_path: record.file_path,
            announce_url: Some(record.announce_url),
            raw_bytes: record.raw_bytes,
            size: record.size,
            downloaded: record.downloaded,
            uploaded: record.uploaded,
        },
    )
}

} // verus!
