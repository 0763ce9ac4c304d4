//! Transfer by download: every file of the remote is fetched at once, in chunks,
//! into a temporary file beside its final place. When the last one is complete the
//! whole set is announced.
//!
//! The caller creates, writes, flushes and renames the files and sends the
//! requests; the steps here say which, in which order, and what they come to.
use vstd::prelude::*;
use vstd::string::StringExecFns;
use crate::clipboard::file_transfer::contents::{
    serve_outgoing, signed32, to_signed32, ContentsRequest, OutgoingAction, UnknownFileIndex,
};
use crate::clipboard::file_transfer::descriptors::{
    is_plain_filename, OutgoingFileInfo, TransferFileDescriptor,
};
use crate::numbers::{decimal, lemma_decimal_round_trip, to_decimal};
use crate::paths::{join_path, joined, lemma_joined_stays_below};

verus! {

/// Most bytes that one request asks for: 64 MiB.
pub const MAX_CHUNK_SIZE: u64 = 0x400_0000;

/// A file that is being received.
#[derive(Debug)]
pub struct IncomingFile {
    pub stream_id: u32,
    pub filename: String,
    pub total_size: u64,
    pub received_size: u64,
    pub temp_path: String,
    pub file_index: u32,
    pub clip_data_id: u32,
}

/// News for the clipboard.
#[derive(Debug)]
pub enum FileTransferEvent {
    /// All files of the paste are there.
    FilesReady { paths: Vec<String>, portal_serial: u32 },
    /// The paste failed.
    TransferFailed { reason: String, portal_serial: u32 },
}

/// What a paste is told.
pub ghost enum News {
    Ready { paths: Seq<Seq<char>>, serial: u32 },
    Failed { serial: u32 },
}

/// The texts of a list of paths.
pub open spec fn path_texts(paths: Seq<String>) -> Seq<Seq<char>> {
    paths.map_values(|path: String| path@)
}

/// What an event tells.
pub open spec fn news_of(event: Option<FileTransferEvent>) -> Option<News> {
    match event {
        Some(FileTransferEvent::FilesReady { paths, portal_serial }) => Some(
            News::Ready { paths: path_texts(paths@), serial: portal_serial },
        ),
        Some(FileTransferEvent::TransferFailed { portal_serial, .. }) => Some(
            News::Failed { serial: portal_serial },
        ),
        None => None,
    }
}

/// The name of the temporary file for a file and a stream.
pub open spec fn temp_name(filename: Seq<char>, stream_id: u32) -> Seq<char> {
    "."@ + filename + "."@ + decimal(stream_id as nat) + ".tmp"@
}

/// How many bytes to ask for where `left` are missing.
pub open spec fn chunk_size(left: int) -> int {
    if left < MAX_CHUNK_SIZE {
        left
    } else {
        MAX_CHUNK_SIZE as int
    }
}

/// How many bytes the first request for a file asks for. A file of unknown size is
/// asked for as a whole chunk.
pub open spec fn first_chunk(total_size: u64) -> int {
    if total_size > 0 {
        chunk_size(total_size as int)
    } else {
        MAX_CHUNK_SIZE as int
    }
}

/// The place of a stream among the incoming files.
pub open spec fn stream_at(files: Seq<IncomingFile>, stream_id: u32, i: int) -> bool {
    0 <= i < files.len() && files[i].stream_id == stream_id
}

pub open spec fn has_stream(files: Seq<IncomingFile>, stream_id: u32) -> bool {
    exists|i: int| stream_at(files, stream_id, i)
}

/// The position of a stream.
pub open spec fn position_of(files: Seq<IncomingFile>, stream_id: u32) -> int {
    choose|i: int| stream_at(files, stream_id, i)
}

/// The incoming files without a stream.
pub open spec fn without_stream(files: Seq<IncomingFile>, stream_id: u32) -> Seq<IncomingFile> {
    if has_stream(files, stream_id) {
        files.remove(position_of(files, stream_id))
    } else {
        files
    }
}

/// A file and the stream it will come in, for which a temporary file is to be
/// created.
#[derive(Debug)]
pub struct PlannedFile {
    pub stream_id: u32,
    pub temp_path: String,
}

/// What to do with a file after data was written to it.
#[derive(Debug)]
pub enum AfterWrite {
    /// It is complete: flush it.
    Flush,
    /// Ask for the next chunk.
    Request(ContentsRequest),
    /// Its size is unknown: nothing.
    Wait,
}

/// A complete file that is to be moved to its place.
#[derive(Debug)]
pub struct Finalize {
    pub temp_path: String,
    pub final_path: String,
    /// The files of the paste, where this was the last one.
    pub all: Option<Vec<String>>,
    pub portal_serial: Option<u32>,
}

impl Finalize {
    /// What the paste is told once the file is in its place.
    pub open spec fn news(&self) -> Option<News> {
        match (self.all, self.portal_serial) {
            (Some(paths), Some(serial)) => Some(News::Ready { paths: path_texts(paths@), serial }),
            _ => None,
        }
    }
}

/// What remains of a failed stream.
#[derive(Debug)]
pub struct FailedStream {
    /// The temporary file to remove.
    pub temp_path: Option<String>,
    pub event: Option<FileTransferEvent>,
}

fn copy_paths(paths: &Vec<String>) -> (copy: Vec<String>)
    ensures
        copy@ == paths@,
{
    let mut copy: Vec<String> = Vec::new();
    let mut i: usize = 0;
    while i < paths.len()
        invariant
            i <= paths@.len(),
            copy@ == paths@.take(i as int),
        decreases paths@.len() - i,
    {
        copy.push(paths[i].clone());
        i += 1;
        assert(copy@ =~= paths@.take(i as int));
    }
    assert(paths@.take(paths@.len() as int) =~= paths@);
    copy
}

/// The download backend.
pub struct StagingFileTransfer {
    pub download_dir: String,
    /// Files being received. No stream occurs twice.
    pub incoming: Vec<IncomingFile>,
    /// Files that this side offers.
    pub outgoing: Vec<OutgoingFileInfo>,
    /// The paste that waits for the files.
    pub portal_serial: Option<u32>,
    /// Where complete files are.
    pub completed: Vec<String>,
    pub next_stream_id: u32,
}

/// No stream occurs twice.
pub open spec fn distinct_streams(files: Seq<IncomingFile>) -> bool {
    forall|i: int, j: int|
        0 <= i < j < files.len() ==> (#[trigger] files[i]).stream_id != (
        #[trigger] files[j]).stream_id
}

/// A paste under way.
pub ghost struct Paste {
    pub dir: Seq<char>,
    /// Files being received.
    pub files: Seq<IncomingFile>,
    /// The paste that waits for the files, until it was told how it ended.
    pub serial: Option<u32>,
    /// Where complete files are.
    pub completed: Seq<Seq<char>>,
}

impl Paste {
    /// Nothing was received yet, and every file has a known size.
    pub open spec fn is_fresh(self, serial: u32) -> bool {
        &&& self.serial == Some(serial)
        &&& self.completed.len() == 0
        &&& distinct_streams(self.files)
        &&& forall|k: int|
            0 <= k < self.files.len() ==> (#[trigger] self.files[k]).total_size > 0
                && self.files[k].received_size == 0
    }

    /// `count` bytes of a stream were written.
    pub open spec fn written(self, stream_id: u32, count: u64) -> Paste {
        if has_stream(self.files, stream_id) {
            let i = position_of(self.files, stream_id);
            let received = (self.files[i].received_size + count) as u64;
            Paste {
                files: self.files.update(
                    i,
                    IncomingFile { received_size: received, ..self.files[i] },
                ),
                ..self
            }
        } else {
            self
        }
    }

    /// A stream is there in full.
    pub open spec fn has_all_of(self, stream_id: u32) -> bool {
        &&& has_stream(self.files, stream_id)
        &&& 0 < self.files[position_of(self.files, stream_id)].total_size
            <= self.files[position_of(self.files, stream_id)].received_size
    }

    /// A complete file was flushed.
    pub open spec fn flushed(self, stream_id: u32) -> Paste {
        if has_stream(self.files, stream_id) {
            let file = self.files[position_of(self.files, stream_id)];
            Paste {
                files: without_stream(self.files, stream_id),
                completed: self.completed.push(joined(self.dir, file.filename@)),
                ..self
            }
        } else {
            self
        }
    }

    /// What the paste is told when all its files are there.
    pub open spec fn success(self) -> Option<News> {
        match self.serial {
            Some(serial) => Some(News::Ready { paths: self.completed, serial }),
            None => None,
        }
    }

    /// What the paste is told when one of its streams fails.
    pub open spec fn failure(self) -> Option<News> {
        match self.serial {
            Some(serial) => Some(News::Failed { serial }),
            None => None,
        }
    }

    /// The last file is in its place.
    pub open spec fn over(self) -> Paste {
        Paste { serial: None, completed: seq![], ..self }
    }

    /// A stream failed.
    pub open spec fn failed(self, stream_id: u32) -> Paste {
        Paste { files: without_stream(self.files, stream_id), serial: None, ..self }
    }
}

impl StagingFileTransfer {
    /// No stream occurs twice.
    pub open spec fn well_formed(&self) -> bool {
        distinct_streams(self.incoming@)
    }

    /// The paste under way.
    pub open spec fn paste(&self) -> Paste {
        Paste {
            dir: self.download_dir@,
            files: self.incoming@,
            serial: self.portal_serial,
            completed: path_texts(self.completed@),
        }
    }

    /// All but the incoming files and what they lead to.
    pub open spec fn same_setup(&self, other: &Self) -> bool {
        &&& self.download_dir == other.download_dir
        &&& self.outgoing == other.outgoing
        &&& self.next_stream_id == other.next_stream_id
    }

    /// A backend that downloads to a directory. Streams are numbered from 1.
    pub fn new(download_dir: String) -> (backend: Self)
        ensures
            backend.well_formed(),
            backend.download_dir == download_dir,
            backend.incoming@.len() == 0,
            backend.outgoing@.len() == 0,
            backend.portal_serial is None,
            backend.completed@.len() == 0,
            backend.next_stream_id == 1,
    {
        StagingFileTransfer {
            download_dir,
            incoming: Vec::new(),
            outgoing: Vec::new(),
            portal_serial: None,
            completed: Vec::new(),
            next_stream_id: 1,
        }
    }

    /// The backend's name for people.
    pub fn name(&self) -> (name: &'static str)
        ensures
            name@ == "Staging Download"@,
    {
        "Staging Download"
    }

    /// Files are fetched before anyone reads them.
    pub fn requires_eager_download(&self) -> (eager: bool)
        ensures
            eager,
    {
        true
    }

    /// The next stream number; after the largest one comes 0.
    pub fn allocate_stream_id(&mut self) -> (stream_id: u32)
        requires
            old(self).well_formed(),
        ensures
            final(self).well_formed(),
            stream_id == old(self).next_stream_id,
            final(self).next_stream_id == (stream_id + 1) % 0x1_0000_0000,
            *final(self) == (StagingFileTransfer {
                next_stream_id: final(self).next_stream_id,
                ..*old(self)
            }),
    {
        let stream_id: u32 = self.next_stream_id;
        self.next_stream_id = stream_id.wrapping_add(1);
        stream_id
    }

    /// The files that this side offers from now on.
    pub fn set_outgoing_files(&mut self, files: Vec<OutgoingFileInfo>)
        requires
            old(self).well_formed(),
        ensures
            final(self).well_formed(),
            *final(self) == (StagingFileTransfer { outgoing: files, ..*old(self) }),
    {
        self.outgoing = files;
    }

    /// How to serve the remote's request for one of this side's files.
    pub fn handle_outgoing_request(&self, list_index: u32, is_size_request: bool) -> (action: Result<
        OutgoingAction,
        UnknownFileIndex,
    >)
        ensures
            list_index >= self.outgoing@.len() ==> action == Err::<OutgoingAction, _>(
                UnknownFileIndex(list_index),
            ),
            list_index < self.outgoing@.len() && is_size_request ==> action == Ok::<
                _,
                UnknownFileIndex,
            >(OutgoingAction::Size(self.outgoing@[list_index as int].size)),
            list_index < self.outgoing@.len() && !is_size_request ==> action is Ok
                && action->Ok_0 is Read && action->Ok_0->path@
                == self.outgoing@[list_index as int].path@,
    {
        serve_outgoing(self.outgoing.as_slice(), list_index, is_size_request)
    }

    /// Healthy where the download directory is there; else what is wrong.
    pub fn health_check(&self, directory_exists: bool) -> (health: Result<(), String>)
        ensures
            directory_exists ==> health is Ok,
            !directory_exists ==> health is Err && health->Err_0@
                == "Download directory does not exist: "@ + self.download_dir@,
    {
        if directory_exists {
            return Ok(());
        }
        let mut text: String = "Download directory does not exist: ".to_owned();
        text.append(self.download_dir.as_str());
        Err(text)
    }

    fn find(&self, stream_id: u32) -> (found: Option<usize>)
        requires
            self.well_formed(),
        ensures
            match found {
                Some(i) => has_stream(self.incoming@, stream_id) && i == position_of(
                    self.incoming@,
                    stream_id,
                ) && stream_at(self.incoming@, stream_id, i as int),
                None => !has_stream(self.incoming@, stream_id),
            },
    {
        let mut i: usize = 0;
        while i < self.incoming.len()
            invariant
                self.well_formed(),
                i <= self.incoming@.len(),
                forall|k: int| 0 <= k < i ==> self.incoming@[k].stream_id != stream_id,
            decreases self.incoming@.len() - i,
        {
            if self.incoming[i].stream_id == stream_id {
                assert(stream_at(self.incoming@, stream_id, i as int));
                return Some(i);
            }
            i += 1;
        }
        None
    }

    fn remove(&mut self, stream_id: u32) -> (removed: Option<IncomingFile>)
        requires
            old(self).well_formed(),
        ensures
            final(self).well_formed(),
            final(self).same_setup(old(self)),
            final(self).portal_serial == old(self).portal_serial,
            final(self).completed == old(self).completed,
            final(self).incoming@ == without_stream(old(self).incoming@, stream_id),
            !has_stream(final(self).incoming@, stream_id),
            match removed {
                Some(file) => has_stream(old(self).incoming@, stream_id) && file
                    == old(self).incoming@[position_of(old(self).incoming@, stream_id)],
                None => !has_stream(old(self).incoming@, stream_id),
            },
    {
        match self.find(stream_id) {
            Some(i) => {
                let ghost before = self.incoming@;
                let file = self.incoming.remove(i);
                assert forall|k: int, l: int| 0 <= k < l < self.incoming@.len() implies
                    self.incoming@[k].stream_id != self.incoming@[l].stream_id by {
                    let a = if k < i { k } else { k + 1 };
                    let b = if l < i { l } else { l + 1 };
                    assert(before[a].stream_id != before[b].stream_id);
                }
                assert(!has_stream(self.incoming@, stream_id)) by {
                    if has_stream(self.incoming@, stream_id) {
                        let k = choose|k: int| stream_at(self.incoming@, stream_id, k);
                        let a = if k < i { k } else { k + 1 };
                        assert(before[a].stream_id == stream_id);
                        assert(a != i);
                    }
                }
                Some(file)
            },
            None => None,
        }
    }

    /// A new paste: whatever was under way is forgotten.
    pub fn begin_transfer(&mut self, portal_serial: u32)
        requires
            old(self).well_formed(),
        ensures
            final(self).well_formed(),
            final(self).same_setup(old(self)),
            final(self).incoming@.len() == 0,
            final(self).completed@.len() == 0,
            final(self).portal_serial == Some(portal_serial),
            final(self).paste().is_fresh(portal_serial),
    {
        self.clear_incoming();
        self.portal_serial = Some(portal_serial);
    }

    /// Forgets the paste and its files.
    pub fn clear_incoming(&mut self)
        requires
            old(self).well_formed(),
        ensures
            final(self).well_formed(),
            final(self).same_setup(old(self)),
            final(self).incoming@.len() == 0,
            final(self).completed@.len() == 0,
            final(self).portal_serial is None,
    {
        self.incoming.clear();
        self.portal_serial = None;
        self.completed.clear();
    }

    /// Gives a file of the paste a stream and a temporary file. The stream is spent
    /// even where that file cannot be created.
    pub fn plan_file(&mut self, descriptor: &TransferFileDescriptor) -> (planned: PlannedFile)
        requires
            old(self).well_formed(),
        ensures
            final(self).well_formed(),
            planned.stream_id == old(self).next_stream_id,
            planned.temp_path@ == joined(
                old(self).download_dir@,
                temp_name(descriptor.filename@, planned.stream_id),
            ),
            final(self).next_stream_id == (planned.stream_id + 1) % 0x1_0000_0000,
            *final(self) == (StagingFileTransfer {
                next_stream_id: final(self).next_stream_id,
                ..*old(self)
            }),
    {
        let stream_id: u32 = self.allocate_stream_id();
        let mut name: String = ".".to_owned();
        name.append(descriptor.filename.as_str());
        name.append(".");
        let number: String = to_decimal(stream_id as u64);
        name.append(number.as_str());
        name.append(".tmp");
        PlannedFile { stream_id, temp_path: join_path(self.download_dir.as_str(), name.as_str()) }
    }

    /// The temporary file is there: the file is expected from now on. Returns the
    /// request for its beginning.
    pub fn expect_file(
        &mut self,
        descriptor: &TransferFileDescriptor,
        planned: PlannedFile,
    ) -> (request: ContentsRequest)
        requires
            old(self).well_formed(),
        ensures
            final(self).well_formed(),
            final(self).same_setup(old(self)),
            final(self).portal_serial == old(self).portal_serial,
            final(self).completed == old(self).completed,
            final(self).incoming@.drop_last() == without_stream(
                old(self).incoming@,
                planned.stream_id,
            ),
            final(self).incoming@.len() > 0,
            ({
                let file = final(self).incoming@.last();
                &&& file.stream_id == planned.stream_id
                &&& file.filename@ == descriptor.filename@
                &&& file.total_size == descriptor.size
                &&& file.received_size == 0
                &&& file.temp_path == planned.temp_path
                &&& file.file_index == descriptor.file_index
                &&& file.clip_data_id == descriptor.clip_data_id
            }),
            request == (ContentsRequest {
                stream_id: planned.stream_id,
                index: signed32(descriptor.file_index),
                position: 0,
                requested_size: first_chunk(descriptor.size) as u32,
            }),
            forall|serial: u32| #[trigger]
                old(self).paste().is_fresh(serial) && descriptor.size > 0
                    ==> final(self).paste().is_fresh(serial),
    {
        let stream_id: u32 = planned.stream_id;
        let _replaced = self.remove(stream_id);
        let ghost before = self.incoming@;
        self.incoming.push(
            IncomingFile {
                stream_id,
                filename: descriptor.filename.clone(),
                total_size: descriptor.size,
                received_size: 0,
                temp_path: planned.temp_path,
                file_index: descriptor.file_index,
                clip_data_id: descriptor.clip_data_id,
            },
        );
        assert(self.incoming@.drop_last() =~= before);
        assert forall|k: int, l: int| 0 <= k < l < self.incoming@.len() implies
            self.incoming@[k].stream_id != self.incoming@[l].stream_id by {
            if l == before.len() {
                assert(!stream_at(before, stream_id, k));
            }
        }
        let size: u64 = if descriptor.size > 0 && descriptor.size < MAX_CHUNK_SIZE {
            descriptor.size
        } else {
            MAX_CHUNK_SIZE
        };
        ContentsRequest {
            stream_id,
            index: to_signed32(descriptor.file_index),
            position: 0,
            requested_size: size as u32,
        }
    }

    /// The remote reports an error on a stream: its file is given up, and the paste
    /// fails, once.
    pub fn stream_failed(&mut self, stream_id: u32) -> (failed: FailedStream)
        requires
            old(self).well_formed(),
        ensures
            final(self).well_formed(),
            final(self).same_setup(old(self)),
            final(self).completed == old(self).completed,
            final(self).incoming@ == without_stream(old(self).incoming@, stream_id),
            final(self).portal_serial is None,
            final(self).paste() == old(self).paste().failed(stream_id),
            news_of(failed.event) == old(self).paste().failure(),
            match failed.temp_path {
                Some(path) => has_stream(old(self).incoming@, stream_id) && path
                    == old(self).incoming@[position_of(old(self).incoming@, stream_id)].temp_path,
                None => !has_stream(old(self).incoming@, stream_id),
            },
            match old(self).portal_serial {
                Some(serial) => {
                    &&& failed.event is Some
                    &&& failed.event->Some_0 is TransferFailed
                    &&& failed.event->Some_0->TransferFailed_portal_serial == serial
                    &&& failed.event->Some_0->reason@ == "RDP error on stream "@ + decimal(
                        stream_id as nat,
                    )
                },
                None => failed.event is None,
            },
    {
        let temp_path: Option<String> = match self.remove(stream_id) {
            Some(file) => Some(file.temp_path),
            None => None,
        };
        let event: Option<FileTransferEvent> = match self.portal_serial {
            Some(portal_serial) => {
                let mut reason: String = "RDP error on stream ".to_owned();
                let number: String = to_decimal(stream_id as u64);
                reason.append(number.as_str());
                Some(FileTransferEvent::TransferFailed { reason, portal_serial })
            },
            None => None,
        };
        self.portal_serial = None;
        FailedStream { temp_path, event }
    }

    /// How many bytes of a stream were written so far; `None` for an unknown stream,
    /// whose data is dropped.
    pub fn received(&self, stream_id: u32) -> (size: Option<u64>)
        requires
            self.well_formed(),
        ensures
            match size {
                Some(size) => has_stream(self.incoming@, stream_id) && size == self.incoming@[
                position_of(self.incoming@, stream_id)].received_size,
                None => !has_stream(self.incoming@, stream_id),
            },
    {
        match self.find(stream_id) {
            Some(i) => Some(self.incoming[i].received_size),
            None => None,
        }
    }

    /// `count` bytes of a stream were written: flush the file where that was the
    /// rest of it, else ask for what comes next.
    pub fn data_written(&mut self, stream_id: u32, count: u64) -> (next: AfterWrite)
        requires
            old(self).well_formed(),
            has_stream(old(self).incoming@, stream_id) ==> old(self).incoming@[position_of(
                old(self).incoming@,
                stream_id,
            )].received_size + count <= u64::MAX,
        ensures
            final(self).well_formed(),
            final(self).same_setup(old(self)),
            final(self).portal_serial == old(self).portal_serial,
            final(self).completed == old(self).completed,
            final(self).paste() == old(self).paste().written(stream_id, count),
            next is Flush <==> final(self).paste().has_all_of(stream_id),
            !has_stream(old(self).incoming@, stream_id) ==> next is Wait && final(self).incoming@
                == old(self).incoming@,
            has_stream(old(self).incoming@, stream_id) ==> ({
                let i = position_of(old(self).incoming@, stream_id);
                let file = old(self).incoming@[i];
                let received = (file.received_size + count) as u64;
                &&& final(self).incoming@ == old(self).incoming@.update(
                    i,
                    IncomingFile { received_size: received, ..file },
                )
                &&& if file.total_size == 0 {
                    next is Wait
                } else if received >= file.total_size {
                    next is Flush
                } else {
                    next is Request && next->Request_0 == (ContentsRequest {
                        stream_id,
                        index: signed32(file.file_index),
                        position: received,
                        requested_size: chunk_size(file.total_size - received) as u32,
                    })
                }
            }),
    {
        let i: usize = match self.find(stream_id) {
            Some(i) => i,
            None => {
                return AfterWrite::Wait;
            },
        };
        let ghost before = self.incoming@;
        let received: u64 = self.incoming[i].received_size + count;
        let total: u64 = self.incoming[i].total_size;
        let file_index: u32 = self.incoming[i].file_index;
        self.incoming[i].received_size = received;
        assert(self.incoming@ =~= before.update(
            i as int,
            IncomingFile { received_size: received, ..before[i as int] },
        ));
        assert(stream_at(self.incoming@, stream_id, i as int));
        if total == 0 {
            AfterWrite::Wait
        } else if received >= total {
            AfterWrite::Flush
        } else {
            let left: u64 = total - received;
            let size: u64 = if left < MAX_CHUNK_SIZE {
                left
            } else {
                MAX_CHUNK_SIZE
            };
            AfterWrite::Request(
                ContentsRequest {
                    stream_id,
                    index: to_signed32(file_index),
                    position: received,
                    requested_size: size as u32,
                },
            )
        }
    }

    /// A complete file is flushed: it counts as received, and is to be moved to its
    /// place. Where it was the last one, the whole set goes with it.
    pub fn file_flushed(&mut self, stream_id: u32) -> (finalize: Option<Finalize>)
        requires
            old(self).well_formed(),
        ensures
            final(self).well_formed(),
            final(self).same_setup(old(self)),
            final(self).portal_serial == old(self).portal_serial,
            final(self).incoming@ == without_stream(old(self).incoming@, stream_id),
            final(self).paste() == old(self).paste().flushed(stream_id),
            finalize is Some <==> has_stream(old(self).incoming@, stream_id),
            finalize is None ==> final(self).completed@ == old(self).completed@,
            finalize is Some ==> ({
                let file = old(self).incoming@[position_of(old(self).incoming@, stream_id)];
                let done = finalize->Some_0;
                &&& done.temp_path == file.temp_path
                &&& done.final_path@ == joined(old(self).download_dir@, file.filename@)
                &&& final(self).completed@ == old(self).completed@.push(done.final_path)
                &&& done.portal_serial == old(self).portal_serial
                &&& done.all is Some <==> final(self).incoming@.len() == 0
                &&& done.all is Some ==> done.all->Some_0@ == final(self).completed@
                &&& done.news() == if final(self).incoming@.len() == 0 {
                    final(self).paste().success()
                } else {
                    None
                }
            }),
    {
        match self.remove(stream_id) {
            None => None,
            Some(file) => {
                let final_path: String = join_path(
                    self.download_dir.as_str(),
                    file.filename.as_str(),
                );
                let ghost earlier = self.paste().completed;
                self.completed.push(final_path.clone());
                assert(self.paste().completed =~= earlier.push(final_path@));
                let all: Option<Vec<String>> = if self.incoming.len() == 0 {
                    Some(copy_paths(&self.completed))
                } else {
                    None
                };
                Some(
                    Finalize {
                        temp_path: file.temp_path,
                        final_path,
                        all,
                        portal_serial: self.portal_serial,
                    },
                )
            },
        }
    }

    /// A file is in its place. Where it was the last one, the paste is told of all
    /// files and is over.
    pub fn file_in_place(&mut self, finalize: Finalize) -> (event: Option<FileTransferEvent>)
        requires
            old(self).well_formed(),
        ensures
            final(self).well_formed(),
            final(self).same_setup(old(self)),
            final(self).incoming == old(self).incoming,
            match (finalize.all, finalize.portal_serial) {
                (Some(paths), Some(portal_serial)) => event == Some(
                    FileTransferEvent::FilesReady { paths, portal_serial },
                ),
                _ => event is None,
            },
            finalize.all is Some ==> final(self).portal_serial is None
                && final(self).completed@.len() == 0,
            finalize.all is None ==> final(self).portal_serial == old(self).portal_serial
                && final(self).completed == old(self).completed,
            news_of(event) == finalize.news(),
            final(self).paste() == if finalize.all is Some {
                old(self).paste().over()
            } else {
                old(self).paste()
            },
    {
        match finalize.all {
            None => None,
            Some(paths) => {
                self.portal_serial = None;
                self.completed.clear();
                assert(self.paste().completed =~= seq![]);
                match finalize.portal_serial {
                    Some(portal_serial) => Some(
                        FileTransferEvent::FilesReady { paths, portal_serial },
                    ),
                    None => None,
                }
            },
        }
    }

    /// Gives up everything under way. Returns the temporary files to remove.
    pub fn shutdown(&mut self) -> (temp_paths: Vec<String>)
        requires
            old(self).well_formed(),
        ensures
            final(self).well_formed(),
            final(self).same_setup(old(self)),
            final(self).incoming@.len() == 0,
            final(self).completed@.len() == 0,
            final(self).portal_serial is None,
            temp_paths@ == old(self).incoming@.map_values(|file: IncomingFile| file.temp_path),
    {
        let mut temp_paths: Vec<String> = Vec::new();
        let mut i: usize = 0;
        while i < self.incoming.len()
            invariant
                i <= self.incoming@.len(),
                *self == *old(self),
                temp_paths@ == self.incoming@.take(i as int).map_values(
                    |file: IncomingFile| file.temp_path,
                ),
            decreases self.incoming@.len() - i,
        {
            temp_paths.push(self.incoming[i].temp_path.clone());
            i += 1;
            assert(temp_paths@ =~= self.incoming@.take(i as int).map_values(
                |file: IncomingFile| file.temp_path,
            ));
        }
        assert(self.incoming@.take(self.incoming@.len() as int) =~= self.incoming@);
        self.clear_incoming();
        temp_paths
    }
}

/// Requests never ask for more than a chunk, for nothing, or for what lies behind
/// the end; and a chunk that is answered in full leaves off where the next one
/// begins, or completes the file. So the chunks of a file cover it without gaps.
pub proof fn lemma_chunks_tile_the_file(total_size: u64, received_size: u64)
    requires
        received_size < total_size,
    ensures
        ({
            let size = chunk_size(total_size - received_size);
            &&& 0 < size <= MAX_CHUNK_SIZE
            &&& size <= u32::MAX
            &&& received_size + size <= total_size
            &&& received_size + size == total_size || size == MAX_CHUNK_SIZE
        }),
        first_chunk(total_size) == chunk_size(total_size as int),
{
}

/// Temporary and final files of a plain name stay in the download directory.
pub proof fn lemma_files_stay_in_directory(dir: Seq<char>, filename: Seq<char>, stream_id: u32)
    requires
        dir.len() > 0,
        is_plain_filename(filename),
    ensures
        dir.is_prefix_of(joined(dir, filename)),
        dir.is_prefix_of(joined(dir, temp_name(filename, stream_id))),
        joined(dir, filename) != joined(dir, temp_name(filename, stream_id)),
{
    reveal_strlit(".");
    reveal_strlit(".tmp");
    let temp = temp_name(filename, stream_id);
    assert(temp[0] == '.');
    assert(temp.len() > filename.len());
    lemma_joined_stays_below(dir, filename);
    lemma_joined_stays_below(dir, temp);
    assert(joined(dir, filename).len() < joined(dir, temp).len());
}

/// How many more responses a file needs where each answers its request in full.
pub open spec fn responses_needed(total_size: int, received_size: int) -> nat
    decreases total_size - received_size,
{
    if received_size >= total_size || received_size < 0 {
        0
    } else {
        1 + responses_needed(total_size, received_size + chunk_size(total_size - received_size))
    }
}

/// A download ends: it takes one response for every chunk that the file begins.
pub proof fn lemma_download_ends(total_size: int, received_size: int)
    requires
        0 <= received_size <= total_size,
    ensures
        responses_needed(total_size, received_size) == (total_size - received_size + MAX_CHUNK_SIZE
            - 1) / MAX_CHUNK_SIZE as int,
    decreases total_size - received_size,
{
    if received_size < total_size {
        lemma_download_ends(
            total_size,
            received_size + chunk_size(total_size - received_size),
        );
    }
}

// ---------------------------------------------------------------------------
// Deliveries
// ---------------------------------------------------------------------------

/// A response of the remote: data that could be written, or an error.
pub ghost enum Delivery {
    Data { stream_id: u32, count: u64 },
    Error { stream_id: u32 },
}

/// What one delivery comes to, before the next one is looked at: the data is written
/// and, where that completes the file, the file is flushed and moved to its place; or the stream fails.
pub open spec fn delivered(paste: Paste, delivery: Delivery) -> (Paste, Option<News>) {
    match delivery {
        Delivery::Error { stream_id } => (paste.failed(stream_id), paste.failure()),
        Delivery::Data { stream_id, count } => {
            let written = paste.written(stream_id, count);
            if written.has_all_of(stream_id) {
                let flushed = written.flushed(stream_id);
                if flushed.files.len() == 0 {
                    (flushed.over(), flushed.success())
                } else {
                    (flushed, None)
                }
            } else {
                (written, None)
            }
        },
    }
}

/// A paste after the first `n` deliveries.
pub open spec fn paste_after(paste: Paste, deliveries: Seq<Delivery>, n: int) -> Paste
    decreases n,
{
    if n <= 0 {
        paste
    } else {
        delivered(paste_after(paste, deliveries, n - 1), deliveries[n - 1]).0
    }
}

/// What the paste is told at delivery `n`.
pub open spec fn news_at(paste: Paste, deliveries: Seq<Delivery>, n: int) -> Option<News> {
    delivered(paste_after(paste, deliveries, n), deliveries[n]).1
}

/// No received size runs out of its 64 bits.
pub open spec fn sizes_fit(paste: Paste, deliveries: Seq<Delivery>) -> bool {
    forall|n: int|
        0 <= n < deliveries.len() ==> match #[trigger] deliveries[n] {
            Delivery::Data { stream_id, count } => {
                let files = paste_after(paste, deliveries, n).files;
                has_stream(files, stream_id) ==> files[position_of(files, stream_id)].received_size
                    + count <= u64::MAX
            },
            Delivery::Error { .. } => true,
        }
}

/// The first `n` deliveries hold no error.
pub open spec fn no_error(deliveries: Seq<Delivery>, n: int) -> bool {
    forall|i: int| 0 <= i < n ==> #[trigger] deliveries[i] is Data
}

/// How many bytes the first `n` deliveries bring for a stream.
pub open spec fn bytes_of(deliveries: Seq<Delivery>, n: int, stream_id: u32) -> int
    decreases n,
{
    if n <= 0 {
        0
    } else {
        bytes_of(deliveries, n - 1, stream_id) + match deliveries[n - 1] {
            Delivery::Data { stream_id: of, count } if of == stream_id => count as int,
            _ => 0,
        }
    }
}

/// The first `n` deliveries bring all of the paste's file at `k`.
pub open spec fn file_received(
    paste: Paste,
    deliveries: Seq<Delivery>,
    n: int,
    k: int,
) -> bool {
    bytes_of(deliveries, n, paste.files[k].stream_id) >= paste.files[k].total_size
}

/// The first `n` deliveries bring all files of a paste, which has some.
pub open spec fn all_received(paste: Paste, deliveries: Seq<Delivery>, n: int) -> bool {
    &&& paste.files.len() > 0
    &&& forall|k: int|
        0 <= k < paste.files.len() ==> #[trigger] file_received(paste, deliveries, n, k)
}

/// Delivery `n` brings the rest of the paste's file at `k`.
pub open spec fn completes(paste: Paste, deliveries: Seq<Delivery>, n: int, k: int) -> bool {
    &&& 0 <= k < paste.files.len()
    &&& !file_received(paste, deliveries, n, k)
    &&& file_received(paste, deliveries, n + 1, k)
}

/// The file that delivery `n` completes.
pub open spec fn completed_at(paste: Paste, deliveries: Seq<Delivery>, n: int) -> Option<int> {
    if exists|k: int| completes(paste, deliveries, n, k) {
        Some(choose|k: int| completes(paste, deliveries, n, k))
    } else {
        None
    }
}

/// The place of a paste's file.
pub open spec fn place_of(paste: Paste, k: int) -> Seq<char> {
    joined(paste.dir, paste.files[k].filename@)
}

/// The places of the files that the first `n` deliveries complete, in the order in
/// which they do.
pub open spec fn places(paste: Paste, deliveries: Seq<Delivery>, n: int) -> Seq<Seq<char>>
    decreases n,
{
    if n <= 0 {
        seq![]
    } else {
        match completed_at(paste, deliveries, n - 1) {
            Some(k) => places(paste, deliveries, n - 1).push(place_of(paste, k)),
            None => places(paste, deliveries, n - 1),
        }
    }
}

/// A file that is still being received, with what came of it.
spec fn still_awaited(
    paste: Paste,
    deliveries: Seq<Delivery>,
    n: int,
    file: IncomingFile,
    k: int,
) -> bool {
    &&& 0 <= k < paste.files.len()
    &&& !file_received(paste, deliveries, n, k)
    &&& file == (IncomingFile {
        received_size: bytes_of(deliveries, n, paste.files[k].stream_id) as u64,
        ..paste.files[k]
    })
}

spec fn is_awaited(
    paste: Paste,
    deliveries: Seq<Delivery>,
    n: int,
    file: IncomingFile,
) -> bool {
    exists|k: int| still_awaited(paste, deliveries, n, file, k)
}

/// After `n` deliveries without an error, with files still missing: exactly these
/// are being received, and the others are in their places.
spec fn under_way(paste: Paste, deliveries: Seq<Delivery>, n: int) -> bool {
    let now = paste_after(paste, deliveries, n);
    &&& now.dir == paste.dir
    &&& now.serial == paste.serial
    &&& now.completed == places(paste, deliveries, n)
    &&& now.completed.len() + now.files.len() == paste.files.len()
    &&& distinct_streams(now.files)
    &&& forall|j: int|
        0 <= j < now.files.len() ==> is_awaited(paste, deliveries, n, #[trigger] now.files[j])
    &&& forall|k: int|
        0 <= k < paste.files.len() ==> (#[trigger] file_received(paste, deliveries, n, k)
            || has_stream(now.files, paste.files[k].stream_id))
    &&& forall|k: int|
        0 <= k < paste.files.len() && #[trigger] file_received(paste, deliveries, n, k)
            ==> now.completed.contains(place_of(paste, k))
}

/// Delivery `n` brings data for a paste that is under way.
spec fn data_comes(paste: Paste, deliveries: Seq<Delivery>, n: int, serial: u32) -> bool {
    &&& paste.is_fresh(serial)
    &&& 0 <= n < deliveries.len()
    &&& sizes_fit(paste, deliveries)
    &&& deliveries[n] is Data
    &&& under_way(paste, deliveries, n)
    &&& !all_received(paste, deliveries, n)
}

/// The paste goes on after delivery `n`, and is told nothing.
spec fn goes_on(paste: Paste, deliveries: Seq<Delivery>, n: int) -> bool {
    &&& !all_received(paste, deliveries, n + 1)
    &&& news_at(paste, deliveries, n) is None
    &&& under_way(paste, deliveries, n + 1)
}

/// The paste is over at delivery `n`, and is told so.
spec fn is_done(paste: Paste, deliveries: Seq<Delivery>, n: int, serial: u32) -> bool {
    &&& all_received(paste, deliveries, n + 1)
    &&& news_at(paste, deliveries, n) == Some(
        News::Ready { paths: places(paste, deliveries, n + 1), serial },
    )
    &&& places(paste, deliveries, n + 1).len() == paste.files.len()
    &&& forall|k: int|
        0 <= k < paste.files.len() ==> places(paste, deliveries, n + 1).contains(
            #[trigger] place_of(paste, k),
        )
    &&& paste_after(paste, deliveries, n + 1).serial is None
}

/// Data for a stream that is not awaited changes nothing.
proof fn lemma_unknown_data(paste: Paste, deliveries: Seq<Delivery>, n: int, serial: u32)
    requires
        data_comes(paste, deliveries, n, serial),
        !has_stream(
            paste_after(paste, deliveries, n).files,
            deliveries[n]->Data_stream_id,
        ),
    ensures
        goes_on(paste, deliveries, n),
{
    let after = n + 1;
    let now = paste_after(paste, deliveries, n);
    let stream_id = deliveries[n]->Data_stream_id;
    let count = deliveries[n]->count;
    let written = now.written(stream_id, count);
    assert(paste_after(paste, deliveries, after) == delivered(now, deliveries[n]).0);
    // What other streams received does not change.
    assert forall|k: int|
        0 <= k < paste.files.len() && paste.files[k].stream_id != stream_id implies file_received(
        paste,
        deliveries,
        n,
        k,
    ) == #[trigger] file_received(paste, deliveries, after, k) by {}
    assert forall|k: int| 0 <= k < paste.files.len() implies file_received(
        paste,
        deliveries,
        n,
        k,
    ) == #[trigger] file_received(paste, deliveries, after, k) by {
        assert(file_received(paste, deliveries, n, k) || has_stream(
            now.files,
            paste.files[k].stream_id,
        ));
    }
    assert(completed_at(paste, deliveries, n) is None);
    assert forall|j: int| 0 <= j < now.files.len() implies is_awaited(
        paste,
        deliveries,
        after,
        #[trigger] now.files[j],
    ) by {
        let k = choose|k: int| still_awaited(paste, deliveries, n, now.files[j], k);
        assert(stream_at(now.files, now.files[j].stream_id, j));
        assert(still_awaited(paste, deliveries, after, now.files[j], k));
    }
    assert(!all_received(paste, deliveries, after)) by {
        if paste.files.len() > 0 {
            let k = choose|k: int|
                0 <= k < paste.files.len() && !#[trigger] file_received(
                    paste,
                    deliveries,
                    n,
                    k,
                );
            assert(!file_received(paste, deliveries, after, k));
        }
    }
}

/// The file that data belongs to: where it is among those being received, and where
/// among those of the paste. No other file is touched.
proof fn lemma_own_file(paste: Paste, deliveries: Seq<Delivery>, n: int, serial: u32) -> (found: (
    int,
    int,
))
    requires
        data_comes(paste, deliveries, n, serial),
        has_stream(
            paste_after(paste, deliveries, n).files,
            deliveries[n]->Data_stream_id,
        ),
    ensures
        ({
            let now = paste_after(paste, deliveries, n);
            let stream_id = deliveries[n]->Data_stream_id;
            let written = now.written(stream_id, deliveries[n]->count);
            let (at, own) = found;
            &&& stream_at(now.files, stream_id, at)
            &&& at == position_of(now.files, stream_id)
            &&& at == position_of(written.files, stream_id)
            &&& has_stream(written.files, stream_id)
            &&& still_awaited(paste, deliveries, n, now.files[at], own)
            &&& written.files[at] == (IncomingFile {
                received_size: bytes_of(deliveries, n + 1, stream_id) as u64,
                ..paste.files[own]
            })
            &&& written.has_all_of(stream_id) == file_received(paste, deliveries, n + 1, own)
            &&& forall|k: int|
                0 <= k < paste.files.len() && k != own ==> {
                    &&& file_received(paste, deliveries, n, k) == #[trigger] file_received(
                        paste,
                        deliveries,
                        n + 1,
                        k,
                    )
                    &&& bytes_of(deliveries, n, paste.files[k].stream_id) == bytes_of(
                        deliveries,
                        n + 1,
                        paste.files[k].stream_id,
                    )
                }
        }),
{
    let after = n + 1;
    let now = paste_after(paste, deliveries, n);
    let stream_id = deliveries[n]->Data_stream_id;
    let count = deliveries[n]->count;
    let written = now.written(stream_id, count);
    assert(paste_after(paste, deliveries, after) == delivered(now, deliveries[n]).0);
    let at = position_of(now.files, stream_id);
    assert(stream_at(now.files, stream_id, at));
    let file = now.files[at];
    assert(is_awaited(paste, deliveries, n, file));
    let own = choose|k: int| still_awaited(paste, deliveries, n, file, k);
    assert(still_awaited(paste, deliveries, n, file, own));
    lemma_bytes_are_counted(deliveries, n, stream_id);
    assert(stream_at(written.files, stream_id, at));
    assert(position_of(written.files, stream_id) == at) by {
        let other = position_of(written.files, stream_id);
        assert(stream_at(written.files, stream_id, other));
        assert(now.files[other].stream_id == stream_id);
    }
    assert forall|k: int| 0 <= k < paste.files.len() && k != own implies {
        &&& file_received(paste, deliveries, n, k) == #[trigger] file_received(
            paste,
            deliveries,
            after,
            k,
        )
        &&& bytes_of(deliveries, n, paste.files[k].stream_id) == bytes_of(
            deliveries,
            after,
            paste.files[k].stream_id,
        )
    } by {
        assert(paste.files[k].stream_id != paste.files[own].stream_id);
    }
    (at, own)
}

/// Data that is not the rest of its file is added to it.
proof fn lemma_part_arrived(paste: Paste, deliveries: Seq<Delivery>, n: int, serial: u32)
    requires
        data_comes(paste, deliveries, n, serial),
        ({
            let now = paste_after(paste, deliveries, n);
            let stream_id = deliveries[n]->Data_stream_id;
            &&& has_stream(now.files, stream_id)
            &&& !now.written(stream_id, deliveries[n]->count).has_all_of(stream_id)
        }),
    ensures
        goes_on(paste, deliveries, n),
{
    let after = n + 1;
    let now = paste_after(paste, deliveries, n);
    let stream_id = deliveries[n]->Data_stream_id;
    let count = deliveries[n]->count;
    let written = now.written(stream_id, count);
    assert(paste_after(paste, deliveries, after) == delivered(now, deliveries[n]).0);
    let (at, own) = lemma_own_file(paste, deliveries, n, serial);
    assert(completed_at(paste, deliveries, n) is None);
    assert forall|j: int| 0 <= j < written.files.len() implies is_awaited(
        paste,
        deliveries,
        after,
        #[trigger] written.files[j],
    ) by {
        assert(is_awaited(paste, deliveries, n, now.files[j]));
        let k = choose|k: int| still_awaited(paste, deliveries, n, now.files[j], k);
        if j == at {
            assert(still_awaited(paste, deliveries, after, written.files[j], own));
        } else {
            assert(now.files[j].stream_id != now.files[at].stream_id);
            assert(still_awaited(paste, deliveries, after, written.files[j], k));
        }
    }
    assert forall|k: int| 0 <= k < paste.files.len() implies (#[trigger] file_received(
        paste,
        deliveries,
        after,
        k,
    ) || has_stream(written.files, paste.files[k].stream_id)) by {
        assert(file_received(paste, deliveries, n, k) || has_stream(
            now.files,
            paste.files[k].stream_id,
        ));
        if has_stream(now.files, paste.files[k].stream_id) {
            let j = position_of(now.files, paste.files[k].stream_id);
            assert(stream_at(now.files, paste.files[k].stream_id, j));
            assert(stream_at(written.files, paste.files[k].stream_id, j));
        }
    }
    assert(distinct_streams(written.files));
    assert(!all_received(paste, deliveries, after));
}

/// The rest of a file completes it, and the paste where it was the last one.
proof fn lemma_rest_arrived(paste: Paste, deliveries: Seq<Delivery>, n: int, serial: u32)
    requires
        data_comes(paste, deliveries, n, serial),
        ({
            let now = paste_after(paste, deliveries, n);
            let stream_id = deliveries[n]->Data_stream_id;
            now.written(stream_id, deliveries[n]->count).has_all_of(stream_id)
        }),
    ensures
        goes_on(paste, deliveries, n) || is_done(paste, deliveries, n, serial),
{
    let after = n + 1;
    let now = paste_after(paste, deliveries, n);
    let stream_id = deliveries[n]->Data_stream_id;
    let count = deliveries[n]->count;
    let written = now.written(stream_id, count);
    assert(paste_after(paste, deliveries, after) == delivered(now, deliveries[n]).0);
    assert(has_stream(now.files, stream_id));
    let (at, own) = lemma_own_file(paste, deliveries, n, serial);
    let flushed = written.flushed(stream_id);
    assert(completes(paste, deliveries, n, own));
    assert(completed_at(paste, deliveries, n) == Some(own));
    assert(flushed.completed =~= places(paste, deliveries, after));
    assert(flushed.completed.last() == place_of(paste, own));
    assert(flushed.completed.contains(place_of(paste, own)));
    assert forall|k: int|
        0 <= k < paste.files.len() && #[trigger] file_received(
            paste,
            deliveries,
            after,
            k,
        ) implies flushed.completed.contains(place_of(paste, k)) by {
        if k != own {
            assert(file_received(paste, deliveries, n, k));
            let i = choose|i: int|
                0 <= i < now.completed.len() && now.completed[i] == place_of(paste, k);
            assert(flushed.completed[i] == place_of(paste, k));
        }
    }
    assert forall|j: int| 0 <= j < flushed.files.len() implies is_awaited(
        paste,
        deliveries,
        after,
        #[trigger] flushed.files[j],
    ) by {
        let i = if j < at {
            j
        } else {
            j + 1
        };
        assert(flushed.files[j] == now.files[i]);
        assert(is_awaited(paste, deliveries, n, now.files[i]));
        let k = choose|k: int| still_awaited(paste, deliveries, n, now.files[i], k);
        assert(now.files[i].stream_id != now.files[at].stream_id);
        assert(still_awaited(paste, deliveries, after, flushed.files[j], k));
    }
    assert forall|k: int| 0 <= k < paste.files.len() implies (#[trigger] file_received(
        paste,
        deliveries,
        after,
        k,
    ) || has_stream(flushed.files, paste.files[k].stream_id)) by {
        if k != own {
            assert(file_received(paste, deliveries, n, k) || has_stream(
                now.files,
                paste.files[k].stream_id,
            ));
            if has_stream(now.files, paste.files[k].stream_id) {
                let i = position_of(now.files, paste.files[k].stream_id);
                assert(stream_at(now.files, paste.files[k].stream_id, i));
                assert(paste.files[k].stream_id != paste.files[own].stream_id);
                let j = if i < at {
                    i
                } else {
                    i - 1
                };
                assert(stream_at(flushed.files, paste.files[k].stream_id, j));
            }
        }
    }
    assert(distinct_streams(flushed.files)) by {
        assert forall|i: int, j: int| 0 <= i < j < flushed.files.len() implies (
        #[trigger] flushed.files[i]).stream_id != (#[trigger] flushed.files[j]).stream_id by {
            let a = if i < at {
                i
            } else {
                i + 1
            };
            let b = if j < at {
                j
            } else {
                j + 1
            };
            assert(now.files[a].stream_id != now.files[b].stream_id);
        }
    }
    if flushed.files.len() == 0 {
        assert(all_received(paste, deliveries, after)) by {
            assert forall|k: int| 0 <= k < paste.files.len() implies
                #[trigger] file_received(paste, deliveries, after, k) by {
                assert(!has_stream(flushed.files, paste.files[k].stream_id));
            }
        }
        assert forall|k: int| 0 <= k < paste.files.len() implies places(
            paste,
            deliveries,
            after,
        ).contains(#[trigger] place_of(paste, k)) by {
            assert(file_received(paste, deliveries, after, k));
        }
    } else {
        assert(is_awaited(paste, deliveries, after, flushed.files[0]));
        let k = choose|k: int|
            still_awaited(paste, deliveries, after, flushed.files[0], k);
        assert(still_awaited(paste, deliveries, after, flushed.files[0], k));
        assert(!all_received(paste, deliveries, after));
    }
}

/// One more delivery of data: the paste goes on, or it is told that all its files
/// are there.
proof fn lemma_data_delivered(paste: Paste, deliveries: Seq<Delivery>, n: int, serial: u32)
    requires
        data_comes(paste, deliveries, n, serial),
    ensures
        goes_on(paste, deliveries, n) || is_done(paste, deliveries, n, serial),
{
    let now = paste_after(paste, deliveries, n);
    let stream_id = deliveries[n]->Data_stream_id;
    if !has_stream(now.files, stream_id) {
        lemma_unknown_data(paste, deliveries, n, serial);
    } else if now.written(stream_id, deliveries[n]->count).has_all_of(stream_id) {
        lemma_rest_arrived(paste, deliveries, n, serial);
    } else {
        lemma_part_arrived(paste, deliveries, n, serial);
    }
}

/// Deliveries bring no negative numbers of bytes.
proof fn lemma_bytes_are_counted(deliveries: Seq<Delivery>, n: int, stream_id: u32)
    ensures
        bytes_of(deliveries, n, stream_id) >= 0,
    decreases n,
{
    if n > 0 {
        lemma_bytes_are_counted(deliveries, n - 1, stream_id);
    }
}

/// After `n` deliveries, a paste without an error and with files missing is under
/// way, and any other was told how it ended.
proof fn lemma_under_way(paste: Paste, deliveries: Seq<Delivery>, n: int, serial: u32)
    requires
        paste.is_fresh(serial),
        0 <= n <= deliveries.len(),
        sizes_fit(paste, deliveries),
    ensures
        no_error(deliveries, n) && !all_received(paste, deliveries, n) ==> under_way(
            paste,
            deliveries,
            n,
        ),
        !(no_error(deliveries, n) && !all_received(paste, deliveries, n)) ==> paste_after(
            paste,
            deliveries,
            n,
        ).serial is None,
    decreases n,
{
    if n == 0 {
        assert forall|k: int| 0 <= k < paste.files.len() implies !#[trigger] file_received(
            paste,
            deliveries,
            0,
            k,
        ) by {}
        assert forall|j: int| 0 <= j < paste.files.len() implies is_awaited(
            paste,
            deliveries,
            0,
            #[trigger] paste.files[j],
        ) by {
            assert(still_awaited(paste, deliveries, 0, paste.files[j], j));
            assert(stream_at(paste.files, paste.files[j].stream_id, j));
        }
        assert forall|k: int| 0 <= k < paste.files.len() implies (#[trigger] file_received(
            paste,
            deliveries,
            0,
            k,
        ) || has_stream(paste.files, paste.files[k].stream_id)) by {
            assert(stream_at(paste.files, paste.files[k].stream_id, k));
        }
        assert(paste.completed =~= places(paste, deliveries, 0));
        if paste.files.len() > 0 {
            assert(!file_received(paste, deliveries, 0, 0));
        }
    } else {
        lemma_under_way(paste, deliveries, n - 1, serial);
        if no_error(deliveries, n - 1) && !all_received(paste, deliveries, n - 1) {
            if deliveries[n - 1] is Data {
                lemma_data_delivered(paste, deliveries, n - 1, serial);
                assert(no_error(deliveries, n));
            } else {
                assert(!no_error(deliveries, n));
            }
        } else {
            lemma_received_stays(paste, deliveries, n - 1, n);
            assert(no_error(deliveries, n) ==> no_error(deliveries, n - 1));
        }
    }
}

/// What was received stays received.
proof fn lemma_received_stays(paste: Paste, deliveries: Seq<Delivery>, n: int, later: int)
    requires
        0 <= n <= later,
    ensures
        all_received(paste, deliveries, n) ==> all_received(paste, deliveries, later),
    decreases later - n,
{
    if n < later && all_received(paste, deliveries, n) {
        assert forall|k: int| 0 <= k < paste.files.len() implies #[trigger] file_received(
            paste,
            deliveries,
            n + 1,
            k,
        ) by {
            assert(file_received(paste, deliveries, n, k));
        }
        lemma_received_stays(paste, deliveries, n + 1, later);
    }
}

/// How a paste ends, for any deliveries. It is told that its files are ready exactly
/// at the delivery that brings the rest of the last one, where none up to then was
/// an error, and it is told the place of each file, in the order in which they
/// became complete. It is told that it failed exactly at the first error, where its
/// files were not all there before.
pub proof fn lemma_paste_is_told_how_it_ends(
    paste: Paste,
    deliveries: Seq<Delivery>,
    serial: u32,
    n: int,
)
    requires
        paste.is_fresh(serial),
        sizes_fit(paste, deliveries),
        0 <= n < deliveries.len(),
    ensures
        ({
            let ready = no_error(deliveries, n + 1) && !all_received(paste, deliveries, n)
                && all_received(paste, deliveries, n + 1);
            let failed = no_error(deliveries, n) && deliveries[n] is Error && !all_received(
                paste,
                deliveries,
                n,
            );
            &&& news_at(paste, deliveries, n) == if ready {
                Some(News::Ready { paths: places(paste, deliveries, n + 1), serial })
            } else if failed {
                Some(News::Failed { serial })
            } else {
                None
            }
            &&& ready ==> {
                &&& places(paste, deliveries, n + 1).len() == paste.files.len()
                &&& forall|k: int|
                    0 <= k < paste.files.len() ==> places(paste, deliveries, n + 1).contains(
                        #[trigger] place_of(paste, k),
                    )
            }
        }),
{
    lemma_under_way(paste, deliveries, n, serial);
    if no_error(deliveries, n) && !all_received(paste, deliveries, n) {
        if deliveries[n] is Data {
            lemma_data_delivered(paste, deliveries, n, serial);
            assert(no_error(deliveries, n + 1));
        }
    } else {
        assert(no_error(deliveries, n + 1) ==> no_error(deliveries, n));
    }
}

/// A paste is told how it ends at most once.
pub proof fn lemma_paste_is_told_once(
    paste: Paste,
    deliveries: Seq<Delivery>,
    serial: u32,
    n: int,
    later: int,
)
    requires
        paste.is_fresh(serial),
        sizes_fit(paste, deliveries),
        0 <= n < later < deliveries.len(),
    ensures
        news_at(paste, deliveries, n) is Some ==> news_at(paste, deliveries, later) is None,
{
    lemma_paste_is_told_how_it_ends(paste, deliveries, serial, n);
    lemma_paste_is_told_how_it_ends(paste, deliveries, serial, later);
    lemma_received_stays(paste, deliveries, n + 1, later);
}

// ---------------------------------------------------------------------------
// Laws of the parts
// ---------------------------------------------------------------------------

/// A request asks for what is missing, up to 64 MiB; for a file of unknown size it asks for
/// 64 MiB.
pub proof fn lemma_requests_ask_for_what_is_missing(left: int, total_size: u64)
    ensures
        chunk_size(left) <= left,
        chunk_size(left) <= 67108864,
        chunk_size(left) == left || chunk_size(left) == 67108864,
        first_chunk(0) == 67108864,
        0 < total_size <= 67108864 ==> first_chunk(total_size) == total_size,
        total_size >= 67108864 ==> first_chunk(total_size) == 67108864,
{
}

/// A temporary file is hidden, carries the name of its file and the number of its stream,
/// and no two streams of a file have the same one.
pub proof fn lemma_temporary_names(filename: Seq<char>, stream_id: u32, other: u32)
    ensures
        temp_name(filename, stream_id) == seq!['.'] + filename + seq!['.'] + decimal(
            stream_id as nat,
        ) + seq!['.', 't', 'm', 'p'],
        stream_id != other ==> temp_name(filename, stream_id) != temp_name(filename, other),
{
    reveal_strlit(".");
    reveal_strlit(".tmp");
    assert("."@ =~= seq!['.']);
    assert(".tmp"@ =~= seq!['.', 't', 'm', 'p']);
    let a = decimal(stream_id as nat);
    let b = decimal(other as nat);
    lemma_decimal_round_trip(stream_id as nat);
    lemma_decimal_round_trip(other as nat);
    if temp_name(filename, stream_id) == temp_name(filename, other) {
        let first = filename.len() as int + 2;
        assert(temp_name(filename, stream_id).subrange(first, first + a.len()) =~= a);
        assert(temp_name(filename, other).subrange(first, first + b.len()) =~= b);
        assert(a.len() == b.len());
    }
}

/// A stream that occurs is found where it is. Without it the other files stay, in their
/// order.
pub proof fn lemma_streams_are_found(files: Seq<IncomingFile>, stream_id: u32, i: int)
    requires
        distinct_streams(files),
        0 <= i < files.len(),
    ensures
        has_stream(files, files[i].stream_id),
        position_of(files, files[i].stream_id) == i,
        without_stream(files, files[i].stream_id) == files.take(i) + files.skip(i + 1),
        !has_stream(without_stream(files, files[i].stream_id), files[i].stream_id),
        has_stream(files, stream_id) ==> files[position_of(files, stream_id)].stream_id
            == stream_id,
        !has_stream(files, stream_id) ==> without_stream(files, stream_id) == files
            && files[i].stream_id != stream_id,
{
    let own = files[i].stream_id;
    assert(stream_at(files, own, i));
    let at = position_of(files, own);
    assert(stream_at(files, own, at));
    let rest = files.take(i) + files.skip(i + 1);
    assert(files.remove(i) =~= rest);
    assert(!has_stream(rest, own)) by {
        if has_stream(rest, own) {
            let k = choose|k: int| stream_at(rest, own, k);
            let j = if k < i {
                k
            } else {
                k + 1
            };
            assert(files[j].stream_id == own);
        }
    }
    if has_stream(files, stream_id) {
        assert(stream_at(files, stream_id, position_of(files, stream_id)));
    }
    if files[i].stream_id == stream_id {
        assert(stream_at(files, stream_id, i));
    }
}

/// Where the setup is the same, so are the directory, the offered files and the number of
/// the next stream.
pub proof fn lemma_setup_is_kept(before: StagingFileTransfer, after: StagingFileTransfer)
    ensures
        after.same_setup(&before) <==> after.download_dir == before.download_dir && after.outgoing
            == before.outgoing && after.next_stream_id == before.next_stream_id,
{
}

} // verus!
