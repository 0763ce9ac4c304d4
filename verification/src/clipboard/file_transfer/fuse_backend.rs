//! Transfer on demand: files appear in a virtual file system, and a read of one
//! waits until the remote has sent the range.
use vstd::prelude::*;
use crate::clipboard::file_transfer::contents::{
    serve_outgoing, signed32, to_signed32, ContentsRequest, OutgoingAction, UnknownFileIndex,
};
use crate::clipboard::file_transfer::descriptors::{OutgoingFileInfo, TransferFileDescriptor};

verus! {

/// What a blocked read gets.
#[derive(Debug)]
pub enum ReadReply {
    Data(Vec<u8>),
    /// The remote reports an error.
    RdpError,
}

/// What to do with a read of a virtual file.
#[derive(Debug)]
pub enum ReadAction {
    /// No client is connected: fail the read.
    NotConnected,
    /// Keep the read waiting under the request's stream, and ask the remote.
    Request(ContentsRequest),
}

/// Why files could not be prepared.
#[derive(Clone, Copy, Debug, PartialEq, Eq)]
pub enum PrepareFailure {
    NotMounted,
    NoVirtualFiles,
}

impl PrepareFailure {
    /// The failure in words.
    pub fn message(&self) -> (text: &'static str)
        ensures
            text@ == match *self {
                PrepareFailure::NotMounted => "FUSE not mounted"@,
                PrepareFailure::NoVirtualFiles => "FUSE failed to create virtual files"@,
            },
    {
        match self {
            PrepareFailure::NotMounted => "FUSE not mounted",
            PrepareFailure::NoVirtualFiles => "FUSE failed to create virtual files",
        }
    }
}

/// The virtual file system backend.
pub struct FuseFileTransfer {
    pub mount_point: String,
    pub mounted: bool,
    /// Streams of reads that wait for data. None occurs twice.
    pub waiting: Vec<u32>,
    /// Files that this side offers.
    pub outgoing: Vec<OutgoingFileInfo>,
    pub next_stream_id: u32,
}

impl FuseFileTransfer {
    /// No stream waits twice.
    pub open spec fn well_formed(&self) -> bool {
        self.waiting@.no_duplicates()
    }

    /// A backend that is not mounted yet.
    pub fn new(mount_point: String) -> (backend: Self)
        ensures
            backend.well_formed(),
            backend.mount_point == mount_point,
            !backend.mounted,
            backend.waiting@.len() == 0,
            backend.outgoing@.len() == 0,
            backend.next_stream_id == 1,
    {
        FuseFileTransfer {
            mount_point,
            mounted: false,
            waiting: Vec::new(),
            outgoing: Vec::new(),
            next_stream_id: 1,
        }
    }

    /// The backend's name for people.
    pub fn name(&self) -> (name: &'static str)
        ensures
            name@ == "FUSE On-Demand"@,
    {
        "FUSE On-Demand"
    }

    /// Files are fetched when they are read.
    pub fn requires_eager_download(&self) -> (eager: bool)
        ensures
            !eager,
    {
        false
    }

    /// The next stream number; after the largest one comes 0.
    pub fn allocate_stream_id(&mut self) -> (stream_id: u32)
        ensures
            stream_id == old(self).next_stream_id,
            final(self).next_stream_id == (stream_id + 1) % 0x1_0000_0000,
            *final(self) == (FuseFileTransfer {
                next_stream_id: final(self).next_stream_id,
                ..*old(self)
            }),
    {
        let stream_id: u32 = self.next_stream_id;
        self.next_stream_id = stream_id.wrapping_add(1);
        stream_id
    }

    /// The files that this side offers from now on.
    pub fn set_outgoing_files(&mut self, files: Vec<OutgoingFileInfo>)
        ensures
            *final(self) == (FuseFileTransfer { outgoing: files, ..*old(self) }),
    {
        self.outgoing = files;
    }

    /// How to serve the remote's request for one of this side's files.
    pub fn handle_outgoing_request(&self, list_index: u32, is_size_request: bool) -> (action: Result<
        OutgoingAction,
        UnknownFileIndex,
    >)
        ensures
            list_index >= self.outgoing@.len() ==> action == Err::<OutgoingAction, _>(
                UnknownFileIndex(list_index),
            ),
            list_index < self.outgoing@.len() && is_size_request ==> action == Ok::<
                _,
                UnknownFileIndex,
            >(OutgoingAction::Size(self.outgoing@[list_index as int].size)),
            list_index < self.outgoing@.len() && !is_size_request ==> action is Ok
                && action->Ok_0 is Read && action->Ok_0->path@
                == self.outgoing@[list_index as int].path@,
    {
        serve_outgoing(self.outgoing.as_slice(), list_index, is_size_request)
    }

    /// The lock under which the files of a paste are kept: that of the first one,
    /// or 1. Fails where nothing is mounted.
    pub fn begin_prepare(&self, descriptors: &[TransferFileDescriptor]) -> (lock: Result<
        u32,
        PrepareFailure,
    >)
        ensures
            !self.mounted ==> lock == Err::<u32, _>(PrepareFailure::NotMounted),
            self.mounted ==> lock == Ok::<_, PrepareFailure>(
                if descriptors@.len() > 0 {
                    descriptors@[0].clip_data_id
                } else {
                    1
                },
            ),
    {
        if !self.mounted {
            return Err(PrepareFailure::NotMounted);
        }
        if descriptors.len() > 0 {
            Ok(descriptors[0].clip_data_id)
        } else {
            Ok(1)
        }
    }

    /// The virtual files of a paste were created: their paths, unless there is none.
    pub fn finish_prepare(paths: Vec<String>) -> (ready: Result<Vec<String>, PrepareFailure>)
        ensures
            ready == if paths@.len() > 0 {
                Ok(paths)
            } else {
                Err(PrepareFailure::NoVirtualFiles)
            },
    {
        if paths.len() > 0 {
            Ok(paths)
        } else {
            Err(PrepareFailure::NoVirtualFiles)
        }
    }

    /// Mounted, or what is wrong.
    pub fn health_check(&self) -> (health: Result<(), PrepareFailure>)
        ensures
            health == if self.mounted {
                Ok(())
            } else {
                Err(PrepareFailure::NotMounted)
            },
    {
        if self.mounted {
            Ok(())
        } else {
            Err(PrepareFailure::NotMounted)
        }
    }

    fn find_waiting(&self, stream_id: u32) -> (found: Option<usize>)
        ensures
            match found {
                Some(i) => i < self.waiting@.len() && self.waiting@[i as int] == stream_id,
                None => !self.waiting@.contains(stream_id),
            },
    {
        let mut i: usize = 0;
        while i < self.waiting.len()
            invariant
                i <= self.waiting@.len(),
                forall|k: int| 0 <= k < i ==> self.waiting@[k] != stream_id,
            decreases self.waiting@.len() - i,
        {
            if self.waiting[i] == stream_id {
                return Some(i);
            }
            i += 1;
        }
        None
    }

    /// A program reads from a virtual file. The file's index serves as the stream,
    /// so a second read of the file replaces the first.
    pub fn file_read(&mut self, file_index: u32, offset: u64, size: u32, can_send: bool) -> (action:
        ReadAction)
        requires
            old(self).well_formed(),
        ensures
            final(self).well_formed(),
            final(self).mount_point == old(self).mount_point,
            final(self).mounted == old(self).mounted,
            final(self).outgoing == old(self).outgoing,
            final(self).next_stream_id == old(self).next_stream_id,
            !can_send ==> action is NotConnected && final(self).waiting@ == old(self).waiting@,
            can_send ==> {
                &&& action == ReadAction::Request(
                    ContentsRequest {
                        stream_id: file_index,
                        index: signed32(file_index),
                        position: offset,
                        requested_size: size,
                    },
                )
                &&& final(self).waiting@.to_set() == old(self).waiting@.to_set().insert(file_index)
            },
    {
        if !can_send {
            return ReadAction::NotConnected;
        }
        let ghost before = self.waiting@;
        match self.find_waiting(file_index) {
            Some(i) => {
                assert(before[i as int] == file_index);
                assert(before.to_set().insert(file_index) =~= before.to_set());
            },
            None => {
                self.waiting.push(file_index);
                let ghost after = self.waiting@;
                assert forall|s: u32| after.to_set().contains(s) <==> before.to_set().insert(
                    file_index,
                ).contains(s) by {
                    if after.contains(s) {
                        let k = choose|k: int| 0 <= k < after.len() && after[k] == s;
                        if k < before.len() {
                            assert(before[k] == s);
                        }
                    }
                    if before.contains(s) {
                        let k = choose|k: int| 0 <= k < before.len() && before[k] == s;
                        assert(after[k] == s);
                    }
                    assert(after[before.len() as int] == file_index);
                }
                assert(after.to_set() =~= before.to_set().insert(file_index));
            },
        }
        ReadAction::Request(
            ContentsRequest {
                stream_id: file_index,
                index: to_signed32(file_index),
                position: offset,
                requested_size: size,
            },
        )
    }

    /// The remote answered on a stream: what the read that waits for it gets. A read
    /// is answered at most once.
    pub fn deliver_file_data(&mut self, stream_id: u32, data: Vec<u8>, is_error: bool) -> (reply:
        Option<ReadReply>)
        requires
            old(self).well_formed(),
        ensures
            final(self).well_formed(),
            final(self).mount_point == old(self).mount_point,
            final(self).mounted == old(self).mounted,
            final(self).outgoing == old(self).outgoing,
            final(self).next_stream_id == old(self).next_stream_id,
            reply == if old(self).waiting@.contains(stream_id) {
                Some(
                    if is_error {
                        ReadReply::RdpError
                    } else {
                        ReadReply::Data(data)
                    },
                )
            } else {
                None
            },
            final(self).waiting@.to_set() == old(self).waiting@.to_set().remove(stream_id),
    {
        let ghost before = self.waiting@;
        match self.find_waiting(stream_id) {
            None => {
                assert(before.to_set().remove(stream_id) =~= before.to_set());
                None
            },
            Some(i) => {
                assert(before[i as int] == stream_id);
                self.waiting.remove(i);
                let ghost after = self.waiting@;
                assert forall|s: u32| after.to_set().contains(s) <==> before.to_set().remove(
                    stream_id,
                ).contains(s) by {
                    if after.contains(s) {
                        let k = choose|k: int| 0 <= k < after.len() && after[k] == s;
                        let a = if k < i { k } else { k + 1 };
                        assert(before[a] == s);
                    }
                    if before.contains(s) && s != stream_id {
                        let k = choose|k: int| 0 <= k < before.len() && before[k] == s;
                        let a = if k < i { k } else { k - 1 };
                        assert(after[a] == s);
                    }
                }
                assert(after.to_set() =~= before.to_set().remove(stream_id));
                if is_error {
                    Some(ReadReply::RdpError)
                } else {
                    Some(ReadReply::Data(data))
                }
            },
        }
    }
}

} // verus!
