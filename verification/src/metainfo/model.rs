//! The metadata of a torrent, in memory and as a mathematical model.

use vstd::prelude::*;

verus! {

/// The SHA-1 digest of a torrent's `info` dictionary.
pub type InfoHash = [u8; 20];

/// The twenty bytes by which a client names itself.
pub type PeerId = [u8; 20];

/// One file of a torrent that holds several.
#[derive(Clone, Debug, PartialEq, Eq)]
pub struct FileInfo {
    /// File size in bytes.
    pub length: u64,
    /// The file's path, one segment for each directory and one for the
    /// name, each as raw bytes.
    pub path: Vec<Vec<u8>>,
}

/// What a torrent holds: one file, or several.
#[derive(Clone, Debug, PartialEq, Eq)]
pub enum TorrentFileInfo {
    SingleFile { length: u64 },
    MultipleFiles { files: Vec<FileInfo> },
}

/// The `info` dictionary of a torrent file.
#[derive(Clone, Debug, PartialEq, Eq)]
pub struct Info {
    pub name: Option<String>,
    /// Bytes in each piece; never zero in metadata that was read.
    pub piece_length: u64,
    pub meta_version: Option<i8>,
    /// Either one length or a list of files, never both and never neither.
    pub file: TorrentFileInfo,
}

/// A torrent file as read.
#[derive(Clone, Debug, PartialEq, Eq)]
pub struct TorrentFile {
    /// The tracker's URL.
    pub announce: Option<String>,
    pub info: Info,
    /// SHA-1 of the canonical bytes of the `info` dictionary as the document
    /// held it.
    pub info_hash: InfoHash,
}

/// A torrent as the client keeps it: the file as read, and what the store
/// records beside it.
#[derive(Clone, Debug, PartialEq, Eq)]
pub struct Torrent {
    pub torrent_file: TorrentFile,
    pub name: String,
    pub file_path: String,
    pub announce_url: Option<String>,
    /// The torrent file as bytes, so that nothing it holds is lost.
    pub raw_bytes: Vec<u8>,
    /// Total size in bytes; `size - downloaded` is what is left.
    pub size: u64,
    pub downloaded: u64,
    pub uploaded: u64,
}

/// The model of a [`FileInfo`].
pub struct FileModel {
    pub length: u64,
    pub path: Seq<Seq<u8>>,
}

/// The model of a [`TorrentFileInfo`].
pub enum LayoutModel {
    SingleFile { length: u64 },
    MultipleFiles { files: Seq<FileModel> },
}

/// The model of an [`Info`].
pub struct InfoModel {
    pub name: Option<Seq<char>>,
    pub piece_length: u64,
    pub meta_version: Option<i8>,
    pub file: LayoutModel,
}

/// The model of a [`TorrentFile`].
pub struct TorrentModel {
    pub announce: Option<Seq<char>>,
    pub info: InfoModel,
    pub info_hash: Seq<u8>,
}

/// The characters of an optional string.
pub open spec fn text_model(text: Option<String>) -> Option<Seq<char>> {
    match text {
        Some(s) => Some(s@),
        None => None,
    }
}

/// The models of files in memory.
pub open spec fn files_model(files: Seq<FileInfo>) -> Seq<FileModel> {
    Seq::new(files.len(), |i: int| files[i]@)
}

/// The sum of the lengths of `files`.
pub open spec fn total_length(files: Seq<FileModel>) -> nat
    decreases files.len(),
{
    if files.len() == 0 {
        0
    } else {
        total_length(files.drop_last()) + files.last().length as nat
    }
}

/// The size of what a torrent holds: the length of its one file, or the sum
/// of the lengths of its files.
pub open spec fn layout_size(layout: LayoutModel) -> nat {
    match layout {
        LayoutModel::SingleFile { length } => length as nat,
        LayoutModel::MultipleFiles { files } => total_length(files),
    }
}

impl View for FileInfo {
    type V = FileModel;

    open spec fn view(&self) -> FileModel {
        FileModel { length: self.length, path: self.path.deep_view() }
    }
}

impl View for TorrentFileInfo {
    type V = LayoutModel;

    open spec fn view(&self) -> LayoutModel {
        match self {
            TorrentFileInfo::SingleFile { length } => LayoutModel::SingleFile { length: *length },
            TorrentFileInfo::MultipleFiles { files } => LayoutModel::MultipleFiles {
                files: files_model(files@),
            },
        }
    }
}

impl View for Info {
    type V = InfoModel;

    open spec fn view(&self) -> InfoModel {
        InfoModel {
            name: text_model(self.name),
            piece_length: self.piece_length,
            meta_version: self.meta_version,
            file: self.file@,
        }
    }
}

impl View for TorrentFile {
    type V = TorrentModel;

    open spec fn view(&self) -> TorrentModel {
        TorrentModel {
            announce: text_model(self.announce),
            info: self.info@,
            info_hash: self.info_hash@,
        }
    }
}

/// The first files of a list are no longer than the whole list.
pub proof fn lemma_total_length_prefix(files: Seq<FileModel>, count: int)
    requires
        0 <= count <= files.len(),
    ensures
        total_length(files.subrange(0, count)) <= total_length(files),
    decreases files.len(),
{
    if count == files.len() {
        assert(files.subrange(0, count) =~= files);
    } else {
        let front = files.drop_last();
        assert(front.subrange(0, count) =~= files.subrange(0, count));
        lemma_total_length_prefix(front, count);
    }
}

} // verus!
