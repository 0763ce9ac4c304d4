//! Requests for the contents of files, in both directions.
use vstd::prelude::*;
use vstd::string::StringExecFns;
use crate::clipboard::file_transfer::descriptors::OutgoingFileInfo;
use crate::numbers::{decimal, to_decimal};

verus! {

/// A request for a range of a remote file.
#[derive(Clone, Copy, Debug, PartialEq, Eq)]
pub struct ContentsRequest {
    pub stream_id: u32,
    pub index: i32,
    pub position: u64,
    pub requested_size: u32,
}

/// An unsigned number as the signed number with the same bits.
pub open spec fn signed32(value: u32) -> i32 {
    if value < 0x8000_0000 {
        value as i32
    } else {
        (value - 0x1_0000_0000) as i32
    }
}

pub(crate) fn to_signed32(value: u32) -> (signed: i32)
    ensures
        signed == signed32(value),
{
    if value < 0x8000_0000 {
        value as i32
    } else {
        (value as i64 - 0x1_0000_0000) as i32
    }
}

/// How to serve a request of the remote for one of this side's files.
#[derive(Debug)]
pub enum OutgoingAction {
    /// Answer with the file's size.
    Size(u64),
    /// Read the file at this path and answer with what is there.
    Read { path: String },
}

/// There is no file at the requested place of the list.
#[derive(Clone, Copy, Debug, PartialEq, Eq)]
pub struct UnknownFileIndex(pub u32);

impl UnknownFileIndex {
    /// The error in words.
    pub fn message(&self) -> (text: String)
        ensures
            text@ == "File index "@ + decimal(self.0 as nat) + " not found"@,
    {
        let mut text: String = "File index ".to_owned();
        let number: String = to_decimal(self.0 as u64);
        text.append(number.as_str());
        text.append(" not found");
        text
    }
}

/// Serves a request for the file at `list_index`: its size, or its contents.
pub fn serve_outgoing(
    files: &[OutgoingFileInfo],
    list_index: u32,
    is_size_request: bool,
) -> (action: Result<OutgoingAction, UnknownFileIndex>)
    ensures
        list_index >= files@.len() ==> action == Err::<OutgoingAction, _>(
            UnknownFileIndex(list_index),
        ),
        list_index < files@.len() && is_size_request ==> action == Ok::<_, UnknownFileIndex>(
            OutgoingAction::Size(files@[list_index as int].size),
        ),
        list_index < files@.len() && !is_size_request ==> action is Ok && action->Ok_0 is Read
            && action->Ok_0->path@ == files@[list_index as int].path@,
{
    if list_index as u64 >= files.len() as u64 {
        return Err(UnknownFileIndex(list_index));
    }
    let file = &files[list_index as usize];
    if is_size_request {
        Ok(OutgoingAction::Size(file.size))
    } else {
        Ok(OutgoingAction::Read { path: file.path.clone() })
    }
}

/// The answer to a request for contents.
#[derive(Debug)]
pub enum OutgoingReply {
    Data(Vec<u8>),
    Error,
}

/// Answers with what was read, or with an error where nothing could be read.
pub fn reply_with(read: Option<Vec<u8>>) -> (reply: OutgoingReply)
    ensures
        reply == match read {
            Some(data) => OutgoingReply::Data(data),
            None => OutgoingReply::Error,
        },
{
    match read {
        Some(data) => OutgoingReply::Data(data),
        None => OutgoingReply::Error,
    }
}

/// The signed number with the same bits differs by a whole turn, or not at all.
pub proof fn lemma_signed_numbers_keep_their_bits(value: u32)
    ensures
        (signed32(value) as int) % 0x1_0000_0000 == value,
        value <= 0x7FFF_FFFF ==> signed32(value) == value,
        value > 0x7FFF_FFFF ==> signed32(value) < 0,
{
}

} // verus!
