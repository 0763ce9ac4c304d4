//! File lists: what the remote offers, and what this side serves.
use vstd::prelude::*;
use vstd::utf8::encode_utf8;
use lamco_clipboard_core::ClipboardError as CoreError;
use lamco_clipboard_core::sanitize::sanitize_filename_for_linux;
use lamco_rdp_clipboard::FileDescriptor;
use crate::clipboard::image::{le32, read_le32};
use crate::clipboard::text::{before_zero, le_units, utf16_text};

verus! {

/// A file that the remote offers.
#[derive(Clone, Debug, PartialEq, Eq)]
pub struct RemoteFile {
    pub name: String,
    pub size: Option<u64>,
}

/// A file to be transferred to this side.
#[derive(Clone, Debug, PartialEq, Eq)]
pub struct TransferFileDescriptor {
    pub filename: String,
    pub size: u64,
    pub file_index: u32,
    pub clip_data_id: u32,
}

/// A file that this side offers, with its place in the file list.
#[derive(Clone, Debug, PartialEq, Eq)]
pub struct OutgoingFileInfo {
    pub list_index: u32,
    pub path: String,
    pub size: u64,
    pub filename: String,
}

/// A local path with what the file system says of it: the last component where it
/// is text, and the size where the file can be examined.
#[derive(Clone, Debug, PartialEq, Eq)]
pub struct ProbedFile {
    pub path: String,
    pub file_name: Option<String>,
    pub size: Option<u64>,
}

/// Name and size of a remote file.
pub open spec fn remote_view(files: Seq<RemoteFile>) -> Seq<(Seq<char>, Option<u64>)> {
    files.map_values(|file: RemoteFile| (file.name@, file.size))
}

/// An index as it fits 32 bits.
pub open spec fn index32(i: int) -> u32 {
    (i % 0x1_0000_0000) as u32
}

fn to_index32(i: usize) -> (index: u32)
    ensures
        index == index32(i as int),
{
    (i as u64 % 0x1_0000_0000) as u32
}

// ---------------------------------------------------------------------------
// File names
// ---------------------------------------------------------------------------

/// The name with an underscore in place of every slash, backslash and NUL, and
/// with one in front of a leading dash.
pub open spec fn tamed_name(name: Seq<char>) -> Seq<char> {
    let tamed = name.map_values(
        |c: char|
            if c == '/' || c == '\\' || c == '\0' {
                '_'
            } else {
                c
            },
    );
    if tamed.len() > 0 && tamed[0] == '-' {
        seq!['_'] + tamed
    } else {
        tamed
    }
}

/// The position of the last dot, or -1.
pub open spec fn last_dot(name: Seq<char>) -> int
    decreases name.len(),
{
    if name.len() == 0 {
        -1
    } else if name.last() == '.' {
        name.len() - 1
    } else {
        last_dot(name.drop_last())
    }
}

pub open spec fn at_most(name: Seq<char>, count: int) -> Seq<char> {
    if name.len() <= count {
        name
    } else {
        name.take(count)
    }
}

/// The name where it has at most 255 bytes; else one that is cut in front of its
/// extension, or at its end where the extension alone is too long. An extension
/// counts by its bytes, what is kept in front of it by its characters.
pub open spec fn shortened_name(name: Seq<char>) -> Seq<char> {
    let dot = last_dot(name);
    let extension = encode_utf8(name.skip(dot)).len() as int;
    if encode_utf8(name).len() <= 255 {
        name
    } else if dot >= 0 && extension < 254 {
        at_most(name.take(dot), 255 - extension) + name.skip(dot)
    } else {
        at_most(name, 255)
    }
}

/// The name under which a remote file is kept.
pub open spec fn linux_filename(name: Seq<char>) -> Seq<char> {
    let tamed = tamed_name(name);
    if tamed.len() == 0 || tamed == seq!['.'] || tamed == seq!['.', '.'] {
        "_unnamed_"@
    } else {
        shortened_name(tamed)
    }
}

/// A name that names a file of one directory, and nothing else.
pub open spec fn is_plain_filename(name: Seq<char>) -> bool {
    &&& name.len() > 0
    &&& name != seq!['.']
    &&& name != seq!['.', '.']
    &&& forall|i: int|
        0 <= i < name.len() ==> #[trigger] name[i] != '/' && name[i] != '\\' && name[i] != '\0'
}

proof fn lemma_utf8_size(text: Seq<char>)
    ensures
        encode_utf8(text).len() <= 4 * text.len(),
    decreases text.len(),
{
    if text.len() > 0 {
        lemma_utf8_size(text.drop_first());
    }
}

proof fn lemma_last_dot(name: Seq<char>)
    ensures
        -1 <= last_dot(name) < name.len(),
    decreases name.len(),
{
    if name.len() > 0 {
        lemma_last_dot(name.drop_last());
    }
}

/// Whatever a remote file is called, it is kept under a plain name: one that leads
/// out of no directory.
pub proof fn lemma_filenames_are_plain(name: Seq<char>)
    ensures
        is_plain_filename(linux_filename(name)),
{
    reveal_strlit("_unnamed_");
    let tamed = tamed_name(name);
    let kept = linux_filename(name);
    assert(forall|i: int|
        0 <= i < tamed.len() ==> #[trigger] tamed[i] != '/' && tamed[i] != '\\' && tamed[i] != '\0');
    if kept != "_unnamed_"@ {
        let dot = last_dot(tamed);
        lemma_last_dot(tamed);
        lemma_utf8_size(tamed);
        lemma_utf8_size(tamed.skip(dot));
        if encode_utf8(tamed).len() > 255 {
            assert(kept.len() > 2);
        }
    }
}

/// Calls `lamco_clipboard_core::sanitize::sanitize_filename_for_linux`. Claimed: it
/// makes the name plain and shortens it as `linux_filename` says.
#[verifier::external_body]
fn filename_for_linux(name: &str) -> (filename: String)
    ensures
        filename@ == linux_filename(name@),
{
    sanitize_filename_for_linux(name)
}

// ---------------------------------------------------------------------------
// Incoming file lists
// ---------------------------------------------------------------------------

/// The file at `i` of a `FileGroupDescriptorW`: its name, which a zero ends, and its
/// size, where the flag 0x40 says that there is one. `None` where the name is no text.
pub open spec fn listed_file(data: Seq<u8>, i: int) -> Option<(Seq<char>, Option<u64>)> {
    let at = 4 + 592 * i;
    let size = if data[at] / 64 % 2 == 1 {
        Some((le32(data, at + 64) * 0x1_0000_0000 + le32(data, at + 68)) as u64)
    } else {
        None
    };
    match utf16_text(before_zero(le_units(data.subrange(at + 72, at + 592)))) {
        Some(name) => Some((name, size)),
        None => None,
    }
}

/// The files of a whole `FileGroupDescriptorW`, or `None` where a name is no text.
pub open spec fn file_list_of(data: Seq<u8>) -> Option<Seq<(Seq<char>, Option<u64>)>> {
    if forall|i: int| 0 <= i < le32(data, 0) ==> #[trigger] listed_file(data, i) is Some {
        Some(Seq::new(le32(data, 0) as nat, |i: int| listed_file(data, i)->Some_0))
    } else {
        None
    }
}

/// A `FileGroupDescriptorW` is there as a whole: the number of files, and 592 bytes
/// for each of them.
pub open spec fn is_whole_list(data: Seq<u8>) -> bool {
    data.len() >= 4 && (le32(data, 0) == 0 || data.len() >= 4 + 592 * le32(data, 0))
}

/// Calls `lamco_rdp_clipboard::FileDescriptor::parse_list`. Claimed: it reads names
/// and sizes as `file_list_of` says, and fails where a name is no text. The data is
/// whole, so that its size can be counted.
#[verifier::external_body]
fn parse_file_list(data: &[u8]) -> (files: Result<Vec<RemoteFile>, CoreError>)
    requires
        is_whole_list(data@),
    ensures
        match file_list_of(data@) {
            Some(list) => files is Ok && remote_view(files->Ok_0@) == list,
            None => files is Err,
        },
{
    let parsed = FileDescriptor::parse_list(data)?;
    Ok(parsed.into_iter().map(|file| RemoteFile { name: file.name, size: file.size }).collect())
}

/// A descriptor stands for the file at `i` of the list.
pub open spec fn describes(
    descriptor: TransferFileDescriptor,
    list: Seq<(Seq<char>, Option<u64>)>,
    i: int,
    clip_data_id: u32,
) -> bool {
    &&& descriptor.filename@ == linux_filename(list[i].0)
    &&& is_plain_filename(descriptor.filename@)
    &&& descriptor.size == match list[i].1 {
        Some(size) => size,
        None => 0,
    }
    &&& descriptor.file_index == index32(i)
    &&& descriptor.clip_data_id == clip_data_id
}

/// Descriptors stand for the files of a list, in order.
pub open spec fn describe_all(
    descriptors: Seq<TransferFileDescriptor>,
    list: Seq<(Seq<char>, Option<u64>)>,
    clip_data_id: u32,
) -> bool {
    &&& descriptors.len() == list.len()
    &&& forall|i: int|
        0 <= i < list.len() ==> describes(#[trigger] descriptors[i], list, i, clip_data_id)
}

/// Makes transfer descriptors of a file list: safe names, unknown sizes as 0, and
/// positions as indexes.
pub fn transfer_descriptors(files: &[RemoteFile], clip_data_id: u32) -> (descriptors: Vec<
    TransferFileDescriptor,
>)
    ensures
        describe_all(descriptors@, remote_view(files@), clip_data_id),
{
    let ghost list = remote_view(files@);
    let mut descriptors: Vec<TransferFileDescriptor> = Vec::new();
    let mut i: usize = 0;
    while i < files.len()
        invariant
            i <= files@.len(),
            list == remote_view(files@),
            descriptors@.len() == i,
            forall|k: int|
                0 <= k < i ==> describes(#[trigger] descriptors@[k], list, k, clip_data_id),
        decreases files@.len() - i,
    {
        let size: u64 = match files[i].size {
            Some(size) => size,
            None => 0,
        };
        descriptors.push(
            TransferFileDescriptor {
                filename: filename_for_linux(files[i].name.as_str()),
                size,
                file_index: to_index32(i),
                clip_data_id,
            },
        );
        proof {
            lemma_filenames_are_plain(files@[i as int].name@);
        }
        i += 1;
    }
    descriptors
}

/// The files that a `FileGroupDescriptorW` lists; `None` where it is malformed.
pub open spec fn listed_files(data: Seq<u8>) -> Option<Seq<(Seq<char>, Option<u64>)>> {
    if is_whole_list(data) {
        file_list_of(data)
    } else {
        None
    }
}

/// Reads a `FileGroupDescriptorW` into transfer descriptors; `None` where it is
/// malformed.
pub fn descriptors_from_list(data: &[u8], clip_data_id: u32) -> (descriptors: Option<
    Vec<TransferFileDescriptor>,
>)
    ensures
        match listed_files(data@) {
            Some(list) => descriptors is Some && describe_all(
                descriptors->Some_0@,
                list,
                clip_data_id,
            ),
            None => descriptors is None,
        },
        descriptors is Some ==> descriptors->Some_0@.len() == le32(data@, 0),
{
    if data.len() < 4 {
        return None;
    }
    let count: u64 = read_le32(data, 0) as u64;
    if count > 0 && (data.len() as u64) < 4 + 592 * count {
        return None;
    }
    match parse_file_list(data) {
        Ok(files) => Some(transfer_descriptors(files.as_slice(), clip_data_id)),
        Err(_) => None,
    }
}

// ---------------------------------------------------------------------------
// Outgoing files
// ---------------------------------------------------------------------------

/// The positions of the files that could be examined, in order.
pub open spec fn examined(files: Seq<ProbedFile>, count: int) -> Seq<int>
    decreases count,
{
    if count <= 0 {
        seq![]
    } else if files[count - 1].size is Some {
        examined(files, count - 1).push(count - 1)
    } else {
        examined(files, count - 1)
    }
}

/// An outgoing entry stands for the probed file at `i`.
pub open spec fn offers(info: OutgoingFileInfo, files: Seq<ProbedFile>, i: int) -> bool {
    &&& info.list_index == index32(i)
    &&& info.path@ == files[i].path@
    &&& Some(info.size) == files[i].size
    &&& info.filename@ == match files[i].file_name {
        Some(name) => name@,
        None => "unknown"@,
    }
}

/// The files to offer: those that could be examined, each with its position in
/// the whole list.
pub fn outgoing_files(files: &[ProbedFile]) -> (outgoing: Vec<OutgoingFileInfo>)
    ensures
        outgoing@.len() == examined(files@, files@.len() as int).len(),
        forall|k: int|
            0 <= k < outgoing@.len() ==> offers(
                #[trigger] outgoing@[k],
                files@,
                examined(files@, files@.len() as int)[k],
            ),
{
    let mut outgoing: Vec<OutgoingFileInfo> = Vec::new();
    let mut i: usize = 0;
    while i < files.len()
        invariant
            i <= files@.len(),
            outgoing@.len() == examined(files@, i as int).len(),
            forall|k: int|
                0 <= k < outgoing@.len() ==> offers(
                    #[trigger] outgoing@[k],
                    files@,
                    examined(files@, i as int)[k],
                ),
        decreases files@.len() - i,
    {
        if let Some(size) = files[i].size {
            let filename: String = match &files[i].file_name {
                Some(name) => name.clone(),
                None => "unknown".to_owned(),
            };
            outgoing.push(
                OutgoingFileInfo {
                    list_index: to_index32(i),
                    path: files[i].path.clone(),
                    size,
                    filename,
                },
            );
        }
        i += 1;
    }
    outgoing
}

// ---------------------------------------------------------------------------
// Laws
// ---------------------------------------------------------------------------

/// A position in a list is its index, as long as 32 bits hold it.
pub proof fn lemma_positions_are_indexes(i: int)
    requires
        0 <= i,
    ensures
        i < 0x1_0000_0000 ==> index32(i) == i,
        index32(i + 0x1_0000_0000) == index32(i),
{
    assert((i + 0x1_0000_0000) % 0x1_0000_0000 == i % 0x1_0000_0000);
}

/// A file list is whole where it has 592 bytes for each file that it counts.
pub proof fn lemma_whole_lists_have_their_size(data: Seq<u8>)
    ensures
        is_whole_list(data) <==> data.len() >= 4 && data.len() >= 4 + 592 * (data[0] + 256 * data[1]
            + 65536 * data[2] + 16777216 * data[3]),
{
}

/// A list is given where it is whole and every name is text; it then has as many files as
/// it counts, in their order.
pub proof fn lemma_lists_are_read_in_order(data: Seq<u8>, i: int)
    requires
        0 <= i < data[0] + 256 * data[1] + 65536 * data[2] + 16777216 * data[3],
    ensures
        listed_files(data) matches Some(list) ==> list.len() == data[0] + 256 * data[1] + 65536
            * data[2] + 16777216 * data[3] && Some(list[i]) == listed_file(data, i),
        listed_file(data, i) is None ==> listed_files(data) is None,
        !is_whole_list(data) ==> listed_files(data) is None,
{
}

/// Descriptors stand for the files in their order: each has its file's name made plain, its
/// size, its place and the lock.
pub proof fn lemma_descriptors_stand_for_their_files(
    descriptors: Seq<TransferFileDescriptor>,
    list: Seq<(Seq<char>, Option<u64>)>,
    clip_data_id: u32,
    i: int,
)
    requires
        describe_all(descriptors, list, clip_data_id),
        0 <= i < list.len(),
    ensures
        descriptors.len() == list.len(),
        descriptors[i].filename@ == linux_filename(list[i].0),
        list[i].1 matches Some(size) ==> descriptors[i].size == size,
        list[i].1 is None ==> descriptors[i].size == 0,
        i < 0x1_0000_0000 ==> descriptors[i].file_index == i,
        descriptors[i].clip_data_id == clip_data_id,
{
    assert(describes(descriptors[i], list, i, clip_data_id));
}

/// What is known of remote files is kept as it is, in order.
pub proof fn lemma_remote_files_are_kept(files: Seq<RemoteFile>, i: int)
    requires
        0 <= i < files.len(),
    ensures
        remote_view(files).len() == files.len(),
        remote_view(files)[i].0 == files[i].name@,
        remote_view(files)[i].1 == files[i].size,
{
}

/// The examined files are those with a size, all of them and in their order.
pub proof fn lemma_files_with_a_size_are_examined(files: Seq<ProbedFile>, count: int, i: int)
    requires
        0 <= count <= files.len(),
    ensures
        examined(files, count).contains(i) <==> 0 <= i < count && files[i].size is Some,
        forall|a: int, b: int|
            0 <= a < b < examined(files, count).len() ==> examined(files, count)[a] < examined(
                files,
                count,
            )[b],
    decreases count,
{
    if count > 0 {
        let fewer = examined(files, count - 1);
        let all = examined(files, count);
        lemma_files_with_a_size_are_examined(files, count - 1, i);
        assert forall|a: int| 0 <= a < fewer.len() implies #[trigger] fewer[a] < count - 1 by {
            lemma_files_with_a_size_are_examined(files, count - 1, fewer[a]);
            assert(fewer.contains(fewer[a]));
        }
        if files[count - 1].size is Some {
            assert(all[fewer.len() as int] == count - 1);
            if fewer.contains(i) {
                let at = choose|at: int| 0 <= at < fewer.len() && fewer[at] == i;
                assert(all[at] == i);
            }
            if all.contains(i) && i != count - 1 {
                let at = choose|at: int| 0 <= at < all.len() && all[at] == i;
                assert(fewer[at] == i);
            }
        }
    }
}

/// What is offered of a file is the file's own: its place, its path, its size and its name,
/// or the word for a name that is no text.
pub proof fn lemma_offers_are_of_their_file(
    info: OutgoingFileInfo,
    files: Seq<ProbedFile>,
    i: int,
)
    requires
        offers(info, files, i),
        0 <= i,
    ensures
        i < 0x1_0000_0000 ==> info.list_index == i,
        info.path@ == files[i].path@,
        files[i].size == Some(info.size),
        files[i].file_name matches Some(name) ==> info.filename@ == name@,
        files[i].file_name is None ==> info.filename@ == "unknown"@,
{
}

} // verus!
