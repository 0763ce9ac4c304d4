//! What the server decides when the remote client speaks on the clipboard channel.
//!
//! Announcing, reading, sending and completing are done by the caller; a handler
//! takes what the caller found out, updates the shared state and says what to do
//! next.
use vstd::prelude::*;
use vstd::utf8::encode_utf8;
use crate::clipboard::convert::{
    fits, fits_route, is_linux_error, lemma_text_types_are_wide, linux_data, linux_route,
    linux_route_of, to_linux, to_windows, windows_data,
    windows_route, windows_route_of, ClipboardError, LinuxRoute, WindowsRoute, CF_TEXT,
    CF_UNICODETEXT,
};
use crate::clipboard::file_transfer::descriptors::{
    describe_all, descriptors_from_list, listed_files, remote_view, transfer_descriptors,
    RemoteFile, TransferFileDescriptor,
};
use crate::clipboard::image::{blank_mask, has_blank_mask, lemma_blank_masks_have_no_bit};
use crate::clipboard::manager::cache::TransferCache;
use crate::clipboard::text::{
    ansi_from_unicode, le_units, lemma_clipboard_text_is_terminated, linux_text, text_from_unicode,
    trim_trailing_nul, unicode_text, unicode_text_bytes, utf16_lossy,
};
use crate::strings::{contains_text, has_prefix, same_text};

verus! {

/// Serial of the request that the server makes for itself, ahead of any paste.
/// The compositor's own serials stay below it.
pub const EAGER_FETCH_SERIAL: u32 = 0xFFFF_FFFF;

/// A clipboard format of the remote: a number, and a name for registered formats.
#[derive(Clone, Debug, PartialEq, Eq)]
pub struct ClipboardFormat {
    pub id: u32,
    pub name: Option<String>,
}

/// A paste that waits for data of the remote.
#[derive(Debug, PartialEq, Eq)]
pub struct PendingRequest {
    pub serial: u32,
    pub mime: String,
    /// Milliseconds of the caller's clock.
    pub requested_at: u64,
}

/// The end of a paste: data and success, or nothing and failure.
#[derive(Debug, PartialEq, Eq)]
pub struct Completion {
    pub serial: u32,
    pub mime: String,
    pub data: Vec<u8>,
    pub success: bool,
}

/// Data for a clipboard source that serves from memory.
#[derive(Debug, PartialEq, Eq)]
pub struct Provision {
    pub mime: String,
    pub data: Vec<u8>,
}

pub open spec fn provides(provision: Provision, mime: Seq<char>, data: Seq<u8>) -> bool {
    provision.mime@ == mime && provision.data@ == data
}

pub open spec fn delivers(
    completion: Completion,
    serial: u32,
    mime: Seq<char>,
    data: Seq<u8>,
) -> bool {
    &&& completion.serial == serial
    &&& completion.mime@ == mime
    &&& completion.data@ == data
    &&& completion.success
}

pub open spec fn cancels(completion: Completion, serial: u32, mime: Seq<char>) -> bool {
    &&& completion.serial == serial
    &&& completion.mime@ == mime
    &&& completion.data@.len() == 0
    &&& !completion.success
}

/// Every request of the list is cancelled, in order.
pub open spec fn cancel_all(completions: Seq<Completion>, requests: Seq<PendingRequest>) -> bool {
    &&& completions.len() == requests.len()
    &&& forall|i: int|
        0 <= i < requests.len() ==> cancels(
            #[trigger] completions[i],
            requests[i].serial,
            requests[i].mime@,
        )
}

/// Requests with another serial.
pub open spec fn other_than(serial: u32) -> spec_fn(PendingRequest) -> bool {
    |request: PendingRequest| request.serial != serial
}

/// The two types under which file lists are pasted.
pub open spec fn is_file_mime(mime: Seq<char>) -> bool {
    mime == "text/uri-list"@ || mime == "x-special/gnome-copied-files"@
}

fn file_mime(mime: &str) -> (file: bool)
    ensures
        file == is_file_mime(mime@),
{
    same_text(mime, "text/uri-list") || same_text(mime, "x-special/gnome-copied-files")
}

fn copy_bytes(data: &Vec<u8>) -> (copy: Vec<u8>)
    ensures
        copy@ == data@,
{
    vstd::slice::slice_to_vec(data.as_slice())
}

fn cancellation(serial: u32, mime: &String) -> (completion: Completion)
    ensures
        cancels(completion, serial, mime@),
{
    Completion { serial, mime: mime.clone(), data: Vec::new(), success: false }
}

/// What clipboard requests share.
pub struct IngressState {
    /// The formats that the remote announced last.
    pub rdp_formats: Vec<ClipboardFormat>,
    /// The formats that this side announced last.
    pub advertised: Vec<ClipboardFormat>,
    /// Pastes that wait for data, oldest first.
    pub pending: Vec<PendingRequest>,
    /// Delivered data.
    pub cache: TransferCache,
}

// ---------------------------------------------------------------------------
// Format lists
// ---------------------------------------------------------------------------

/// What became of the remote's formats before they are announced.
#[derive(Debug)]
pub enum ConvertedFormats {
    /// They are an echo of this side's own announcement.
    Loop,
    /// They have no MIME types.
    Unconvertible,
    /// Their MIME types.
    MimeTypes(Vec<String>),
}

/// What to do with the remote's formats.
#[derive(Debug)]
pub enum FormatListAction {
    /// Nothing: an echo.
    SkipLoop,
    /// Nothing: no content.
    SkipEmpty,
    /// Report the failed conversion.
    Fail,
    /// Announce these types to the desktop.
    Announce(Vec<String>),
}

pub open spec fn texts(list: Seq<String>) -> Seq<Seq<char>> {
    list.map_values(|text: String| text@)
}

/// The types to announce: those of the formats and, where asked for, the hint that
/// keeps the KDE clipboard history away, at most once.
pub open spec fn announced(mime_types: Seq<Seq<char>>, hint: bool) -> Seq<Seq<char>> {
    if hint && !mime_types.contains("application/x-kde-syncselection"@) {
        mime_types.push("application/x-kde-syncselection"@)
    } else {
        mime_types
    }
}

/// What to fetch from the remote ahead of any paste.
#[derive(Clone, Copy, Debug, PartialEq, Eq)]
pub struct UpfrontFetch {
    /// Fetch the text, as `CF_UNICODETEXT`.
    pub text: bool,
    /// Fetch the file list, under this format number.
    pub files: Option<u32>,
}

/// The first format with the given name.
pub open spec fn first_named(formats: Seq<ClipboardFormat>, name: Seq<char>, from: int) -> Option<
    u32,
>
    decreases formats.len() - from,
{
    if from < 0 || from >= formats.len() {
        None
    } else if formats[from].name is Some && formats[from].name->Some_0@ == name {
        Some(formats[from].id)
    } else {
        first_named(formats, name, from + 1)
    }
}

pub open spec fn offers_text(
    mime_types: Seq<String>,
    formats: Seq<ClipboardFormat>,
) -> bool {
    &&& exists|i: int|
        0 <= i < mime_types.len() && "text/plain"@.is_prefix_of(#[trigger] mime_types[i]@)
    &&& exists|i: int| 0 <= i < formats.len() && #[trigger] formats[i].id == CF_UNICODETEXT
}

pub open spec fn offers_files(mime_types: Seq<String>) -> bool {
    exists|i: int| 0 <= i < mime_types.len() && is_file_mime(#[trigger] mime_types[i]@)
}

fn any_plain_text(mime_types: &[String]) -> (found: bool)
    ensures
        found == (exists|i: int|
            0 <= i < mime_types@.len() && "text/plain"@.is_prefix_of(#[trigger] mime_types@[i]@)),
{
    let mut i: usize = 0;
    while i < mime_types.len()
        invariant
            i <= mime_types@.len(),
            forall|k: int|
                0 <= k < i ==> !"text/plain"@.is_prefix_of(#[trigger] mime_types@[k]@),
        decreases mime_types@.len() - i,
    {
        if has_prefix(mime_types[i].as_str(), "text/plain") {
            return true;
        }
        i += 1;
    }
    false
}

fn any_file_type(mime_types: &[String]) -> (found: bool)
    ensures
        found == offers_files(mime_types@),
{
    let mut i: usize = 0;
    while i < mime_types.len()
        invariant
            i <= mime_types@.len(),
            forall|k: int| 0 <= k < i ==> !is_file_mime(#[trigger] mime_types@[k]@),
        decreases mime_types@.len() - i,
    {
        if file_mime(mime_types[i].as_str()) {
            return true;
        }
        i += 1;
    }
    false
}

fn any_unicode_text(formats: &[ClipboardFormat]) -> (found: bool)
    ensures
        found == (exists|i: int|
            0 <= i < formats@.len() && #[trigger] formats@[i].id == CF_UNICODETEXT),
{
    let mut i: usize = 0;
    while i < formats.len()
        invariant
            i <= formats@.len(),
            forall|k: int| 0 <= k < i ==> #[trigger] formats@[k].id != CF_UNICODETEXT,
        decreases formats@.len() - i,
    {
        if formats[i].id == CF_UNICODETEXT {
            return true;
        }
        i += 1;
    }
    false
}

fn find_named(formats: &[ClipboardFormat], name: &str) -> (id: Option<u32>)
    ensures
        id == first_named(formats@, name@, 0),
{
    let mut i: usize = 0;
    while i < formats.len()
        invariant
            i <= formats@.len(),
            first_named(formats@, name@, 0) == first_named(formats@, name@, i as int),
        decreases formats@.len() - i,
    {
        if let Some(found) = &formats[i].name {
            if same_text(found.as_str(), name) {
                return Some(formats[i].id);
            }
        }
        i += 1;
    }
    None
}

impl IngressState {
    pub open spec fn well_formed(&self) -> bool {
        self.cache.well_formed()
    }

    /// Nothing announced, nothing asked for, nothing delivered.
    pub fn new() -> (state: Self)
        ensures
            state.well_formed(),
            state.rdp_formats@.len() == 0,
            state.advertised@.len() == 0,
            state.pending@.len() == 0,
            state.cache@ == Map::<Seq<char>, Seq<u8>>::empty(),
    {
        IngressState {
            rdp_formats: Vec::new(),
            advertised: Vec::new(),
            pending: Vec::new(),
            cache: TransferCache::new(),
        }
    }

    /// The remote announced formats. They are kept in any case, since registered
    /// formats have other numbers in every session. Where they are announced on,
    /// the remote owns the selection, and what this side announced is void.
    pub fn handle_rdp_format_list(
        &mut self,
        formats: Vec<ClipboardFormat>,
        converted: ConvertedFormats,
        kde_syncselection_hint: bool,
        klipper_present: bool,
    ) -> (action: FormatListAction)
        requires
            old(self).well_formed(),
        ensures
            final(self).well_formed(),
            final(self).rdp_formats == formats,
            final(self).pending == old(self).pending,
            final(self).cache == old(self).cache,
            match converted {
                ConvertedFormats::Loop => action is SkipLoop,
                ConvertedFormats::Unconvertible => action is Fail,
                ConvertedFormats::MimeTypes(mime_types) => if mime_types@.len() == 0 {
                    action is SkipEmpty
                } else {
                    action is Announce && texts(action->Announce_0@) == announced(
                        texts(mime_types@),
                        kde_syncselection_hint && klipper_present,
                    )
                },
            },
            action is Announce ==> final(self).advertised@.len() == 0,
            !(action is Announce) ==> final(self).advertised == old(self).advertised,
    {
        self.rdp_formats = formats;
        match converted {
            ConvertedFormats::Loop => FormatListAction::SkipLoop,
            ConvertedFormats::Unconvertible => FormatListAction::Fail,
            ConvertedFormats::MimeTypes(mime_types) => {
                if mime_types.len() == 0 {
                    return FormatListAction::SkipEmpty;
                }
                self.advertised.clear();
                let mut list: Vec<String> = mime_types;
                let ghost before = texts(list@);
                if kde_syncselection_hint && klipper_present {
                    let known: bool = contains_text(
                        list.as_slice(),
                        "application/x-kde-syncselection",
                    );
                    proof {
                        if before.contains("application/x-kde-syncselection"@) {
                            let i = choose|i: int|
                                0 <= i < before.len() && before[i]
                                    == "application/x-kde-syncselection"@;
                            assert(list@[i]@ == "application/x-kde-syncselection"@);
                        }
                        if known {
                            let i = choose|i: int|
                                0 <= i < list@.len() && #[trigger] list@[i]@
                                    == "application/x-kde-syncselection"@;
                            assert(before[i] == "application/x-kde-syncselection"@);
                        }
                    }
                    if !known {
                        list.push("application/x-kde-syncselection".to_owned());
                        assert(texts(list@) =~= before.push("application/x-kde-syncselection"@));
                    }
                }
                FormatListAction::Announce(list)
            },
        }
    }

    /// After the announcement, for a clipboard source that serves from memory: what
    /// to fetch now. A text fetch waits in the queue like a paste, under a serial
    /// of its own, unless nothing can be sent.
    pub fn plan_upfront_fetch(
        &mut self,
        mime_types: &[String],
        requires_upfront_data: bool,
        can_send: bool,
        now: u64,
    ) -> (fetch: UpfrontFetch)
        requires
            old(self).well_formed(),
        ensures
            final(self).well_formed(),
            final(self).rdp_formats == old(self).rdp_formats,
            final(self).advertised == old(self).advertised,
            final(self).cache == old(self).cache,
            ({
                let wants_text = requires_upfront_data && offers_text(
                    mime_types@,
                    old(self).rdp_formats@,
                );
                &&& fetch.text == (wants_text && can_send)
                &&& !wants_text ==> final(self).pending == old(self).pending
                &&& wants_text && !can_send ==> final(self).pending@ == old(self).pending@.filter(
                    other_than(EAGER_FETCH_SERIAL),
                )
                &&& wants_text && can_send ==> {
                    &&& final(self).pending@.len() == old(self).pending@.len() + 1
                    &&& final(self).pending@.drop_last() == old(self).pending@
                    &&& final(self).pending@.last().serial == EAGER_FETCH_SERIAL
                    &&& final(self).pending@.last().mime@ == "text/plain"@
                    &&& final(self).pending@.last().requested_at == now
                }
            }),
            fetch.files == if requires_upfront_data && can_send && offers_files(mime_types@) {
                first_named(old(self).rdp_formats@, "FileGroupDescriptorW"@, 0)
            } else {
                None
            },
    {
        if !requires_upfront_data {
            return UpfrontFetch { text: false, files: None };
        }
        let wants_text: bool = any_plain_text(mime_types) && any_unicode_text(
            self.rdp_formats.as_slice(),
        );
        if wants_text {
            if can_send {
                let ghost before = self.pending@;
                self.pending.push(
                    PendingRequest {
                        serial: EAGER_FETCH_SERIAL,
                        mime: "text/plain".to_owned(),
                        requested_at: now,
                    },
                );
                assert(self.pending@.drop_last() =~= before);
            } else {
                self.drop_serial(EAGER_FETCH_SERIAL);
            }
        }
        let files: Option<u32> = if can_send && any_file_type(mime_types) {
            find_named(self.rdp_formats.as_slice(), "FileGroupDescriptorW")
        } else {
            None
        };
        UpfrontFetch { text: wants_text && can_send, files }
    }

    /// The text could not be asked for after all: no fetch waits any more.
    pub fn upfront_fetch_failed(&mut self)
        requires
            old(self).well_formed(),
        ensures
            final(self).well_formed(),
            final(self).rdp_formats == old(self).rdp_formats,
            final(self).advertised == old(self).advertised,
            final(self).cache == old(self).cache,
            final(self).pending@ == old(self).pending@.filter(other_than(EAGER_FETCH_SERIAL)),
    {
        self.drop_serial(EAGER_FETCH_SERIAL);
    }

    /// The waiting requests with another serial, in order.
    fn others(&self, serial: u32) -> (kept: Vec<PendingRequest>)
        ensures
            kept@ == self.pending@.filter(other_than(serial)),
    {
        let mut kept: Vec<PendingRequest> = Vec::new();
        let mut i: usize = 0;
        proof {
            reveal(Seq::filter);
            assert(self.pending@.take(0).filter(other_than(serial)) =~= seq![]);
        }
        while i < self.pending.len()
            invariant
                i <= self.pending@.len(),
                kept@ == self.pending@.take(i as int).filter(other_than(serial)),
            decreases self.pending@.len() - i,
        {
            proof {
                reveal(Seq::filter);
                assert(self.pending@.take(i + 1).drop_last() =~= self.pending@.take(i as int));
                assert(self.pending@.take(i + 1).last() == self.pending@[i as int]);
            }
            let request = &self.pending[i];
            if request.serial != serial {
                let copy = PendingRequest {
                    serial: request.serial,
                    mime: request.mime.clone(),
                    requested_at: request.requested_at,
                };
                assert(copy == self.pending@[i as int]);
                kept.push(copy);
            }
            i += 1;
        }
        assert(self.pending@.take(self.pending@.len() as int) =~= self.pending@);
        kept
    }

    fn drop_serial(&mut self, serial: u32)
        ensures
            final(self).rdp_formats == old(self).rdp_formats,
            final(self).advertised == old(self).advertised,
            final(self).cache == old(self).cache,
            final(self).pending@ == old(self).pending@.filter(other_than(serial)),
    {
        let kept: Vec<PendingRequest> = self.others(serial);
        self.pending = kept;
    }
}

// ---------------------------------------------------------------------------
// Data requests: Linux to Windows
// ---------------------------------------------------------------------------

/// Where the data for a request comes from.
#[derive(Debug)]
pub enum DataRequestRoute {
    /// From the list of copied files.
    FileList,
    /// From the desktop's clipboard, as this type.
    Read(String),
    /// From nowhere: the format is unknown.
    Refuse,
}

/// How to answer a request: with a reply that is at hand, if it can be sent, else
/// along the route.
#[derive(Debug)]
pub struct DataRequestPlan {
    pub cached_reply: Option<Vec<u8>>,
    pub route: DataRequestRoute,
}

/// An answer to the remote.
#[derive(Debug)]
pub enum DataReply {
    /// The format is not available.
    Refuse,
    /// The data.
    Send(Vec<u8>),
    /// No answer: the conversion failed.
    Fail(ClipboardError),
    /// No answer yet: the data is a JPEG file of an unusual kind, of which nothing is
    /// known before it was decoded.
    Unfit(Vec<u8>),
}

/// The name under which a requested format was announced. Format 0 stands for the
/// first format with a name.
pub open spec fn requested_name(formats: Seq<ClipboardFormat>, format_id: u32, from: int) -> Option<
    String,
>
    decreases formats.len() - from,
{
    if from < 0 || from >= formats.len() {
        None
    } else if formats[from].id == format_id || (format_id == 0 && formats[from].name is Some) {
        formats[from].name
    } else {
        requested_name(formats, format_id, from + 1)
    }
}

pub open spec fn asks_for_file_list(formats: Seq<ClipboardFormat>, format_id: u32) -> bool {
    match requested_name(formats, format_id, 0) {
        Some(name) => name@ == "FileGroupDescriptorW"@,
        None => false,
    }
}

/// Text of the desktop's clipboard manager, kept as UTF-16LE, as a reply.
pub open spec fn cooperation_reply(format_id: u32, cached: Option<Seq<u8>>) -> Option<Seq<u8>> {
    match cached {
        None => None,
        Some(data) => if format_id == CF_UNICODETEXT {
            Some(data)
        } else if format_id == CF_TEXT {
            Some(encode_utf8(trim_trailing_nul(utf16_lossy(le_units(data)))).push(0))
        } else {
            None
        },
    }
}

/// The reply that the text of the clipboard manager gives, where there is one and
/// text is asked for.
pub fn reply_from_cooperation_cache(format_id: u32, cached: Option<&Vec<u8>>) -> (reply: Option<
    Vec<u8>,
>)
    ensures
        match cooperation_reply(
            format_id,
            match cached {
                Some(data) => Some(data@),
                None => None,
            },
        ) {
            Some(bytes) => reply is Some && reply->Some_0@ == bytes,
            None => reply is None,
        },
{
    match cached {
        None => None,
        Some(data) => {
            if format_id == CF_UNICODETEXT {
                Some(copy_bytes(data))
            } else if format_id == CF_TEXT {
                Some(ansi_from_unicode(data.as_slice()))
            } else {
                None
            }
        },
    }
}

impl IngressState {
    fn file_list_requested(&self, format_id: u32) -> (wanted: bool)
        ensures
            wanted == asks_for_file_list(self.advertised@, format_id),
    {
        let mut i: usize = 0;
        while i < self.advertised.len()
            invariant
                i <= self.advertised@.len(),
                requested_name(self.advertised@, format_id, 0) == requested_name(
                    self.advertised@,
                    format_id,
                    i as int,
                ),
            decreases self.advertised@.len() - i,
        {
            let format = &self.advertised[i];
            if format.id == format_id || (format_id == 0 && format.name.is_some()) {
                return match &format.name {
                    Some(name) => same_text(name.as_str(), "FileGroupDescriptorW"),
                    None => false,
                };
            }
            i += 1;
        }
        false
    }

    /// The remote asks for data. `cooperation_cache` is what the desktop's clipboard
    /// manager synchronised, `mime` the type that the format stands for.
    pub fn plan_data_request(
        &self,
        format_id: u32,
        cooperation_cache: Option<&Vec<u8>>,
        can_send: bool,
        mime: Option<String>,
    ) -> (plan: DataRequestPlan)
        ensures
            match cooperation_reply(
                format_id,
                match cooperation_cache {
                    Some(data) => Some(data@),
                    None => None,
                },
            ) {
                Some(bytes) if can_send => plan.cached_reply is Some
                    && plan.cached_reply->Some_0@ == bytes,
                _ => plan.cached_reply is None,
            },
            plan.route == if asks_for_file_list(self.advertised@, format_id) {
                DataRequestRoute::FileList
            } else {
                match mime {
                    Some(mime) => DataRequestRoute::Read(mime),
                    None => DataRequestRoute::Refuse,
                }
            },
            format_id != 0 ==> forall|i: int|
                0 <= i < self.advertised@.len() && (#[trigger] self.advertised@[i]).id == format_id
                    && (forall|j: int|
                    0 <= j < i ==> (#[trigger] self.advertised@[j]).id != format_id) ==> (
                plan.route is FileList <==> self.advertised@[i].name is Some
                    && self.advertised@[i].name->Some_0@ == "FileGroupDescriptorW"@),
    {
        proof {
            if format_id != 0 {
                assert forall|i: int|
                    0 <= i < self.advertised@.len() && (#[trigger] self.advertised@[i]).id
                        == format_id && (forall|j: int|
                        0 <= j < i ==> (#[trigger] self.advertised@[j]).id != format_id) implies (
                asks_for_file_list(self.advertised@, format_id) <==> self.advertised@[i].name is Some
                    && self.advertised@[i].name->Some_0@ == "FileGroupDescriptorW"@) by {
                    lemma_file_list_goes_by_number(self.advertised@, format_id, i);
                }
            }
        }
        let cached_reply: Option<Vec<u8>> = if can_send {
            reply_from_cooperation_cache(format_id, cooperation_cache)
        } else {
            None
        };
        let route = if self.file_list_requested(format_id) {
            DataRequestRoute::FileList
        } else {
            match mime {
                Some(mime) => DataRequestRoute::Read(mime),
                None => DataRequestRoute::Refuse,
            }
        };
        DataRequestPlan { cached_reply, route }
    }
}

/// Answers a request with what the desktop's clipboard gave for `mime`; `None` is
/// a failed read. A failed conversion is not answered, and an unusual JPEG file is
/// handed back.
pub fn answer_data_request(format_id: u32, mime: &str, read: Option<Vec<u8>>) -> (reply: DataReply)
    ensures
        match read {
            None => reply is Refuse,
            Some(data) => {
                let route = windows_route_of(format_id, mime@);
                if !fits_route(route, data@) {
                    reply == DataReply::Unfit(data)
                } else {
                    match windows_data(route, data@) {
                        Some(bytes) => reply is Send && reply->Send_0@ == bytes,
                        None => reply is Fail && reply->Fail_0 is Core,
                    }
                }
            },
        },
{
    match read {
        None => DataReply::Refuse,
        Some(data) => {
            let route: WindowsRoute = windows_route(format_id, mime);
            if !fits(route, data.as_slice()) {
                return DataReply::Unfit(data);
            }
            match to_windows(route, data) {
                Ok(bytes) => DataReply::Send(bytes),
                Err(error) => DataReply::Fail(error),
            }
        },
    }
}

// ---------------------------------------------------------------------------
// File lists: Linux to Windows
// ---------------------------------------------------------------------------

/// What to do after the richer of the two file lists was read.
#[derive(Debug)]
pub enum UriSource {
    /// Take these URIs.
    Use(Vec<u8>),
    /// Read the plain list.
    ReadUriList,
}

/// The GNOME list is taken where it could be read and holds anything.
pub fn after_gnome_list(read: Option<Vec<u8>>) -> (source: UriSource)
    ensures
        source == match read {
            Some(data) if data@.len() > 0 => UriSource::Use(data),
            _ => UriSource::ReadUriList,
        },
{
    match read {
        Some(data) => {
            if data.len() > 0 {
                UriSource::Use(data)
            } else {
                UriSource::ReadUriList
            }
        },
        None => UriSource::ReadUriList,
    }
}

/// Answers a request for the file list: with the descriptors, or a refusal where
/// there is no file or they could not be built.
pub fn answer_file_list_request(path_count: usize, descriptors: Option<Vec<u8>>) -> (reply:
    DataReply)
    ensures
        reply == match descriptors {
            Some(data) if path_count > 0 => DataReply::Send(data),
            _ => DataReply::Refuse,
        },
{
    if path_count == 0 {
        return DataReply::Refuse;
    }
    match descriptors {
        Some(data) => DataReply::Send(data),
        None => DataReply::Refuse,
    }
}

// ---------------------------------------------------------------------------
// File lists: Windows to Linux
// ---------------------------------------------------------------------------

/// The remote sent its file list. Only a clipboard source that serves from memory
/// needs it now; others ask when a paste comes.
pub fn plan_remote_file_list(
    files: &[RemoteFile],
    clip_data_id: Option<u32>,
    provider_requires_upfront_data: Option<bool>,
    can_send: bool,
) -> (descriptors: Option<Vec<TransferFileDescriptor>>)
    ensures
        descriptors is Some <==> provider_requires_upfront_data == Some(true) && files@.len() > 0
            && can_send,
        descriptors is Some ==> describe_all(
            descriptors->Some_0@,
            remote_view(files@),
            match clip_data_id {
                Some(id) => id,
                None => 1,
            },
        ),
{
    let upfront: bool = match provider_requires_upfront_data {
        Some(upfront) => upfront,
        None => false,
    };
    if !upfront || files.len() == 0 || !can_send {
        return None;
    }
    let id: u32 = match clip_data_id {
        Some(id) => id,
        None => 1,
    };
    Some(transfer_descriptors(files, id))
}

/// How a file transfer was prepared. Both lists name the same files.
#[derive(Debug)]
pub enum PreparedFiles {
    /// The files can be read.
    Ready { uri_list: Vec<u8>, gnome_list: Vec<u8> },
    /// They will be announced when they are there.
    Pending,
    /// They cannot be had.
    Failed,
}

impl IngressState {
    fn keep_file_lists(&mut self, uri_list: &Vec<u8>, gnome_list: &Vec<u8>)
        requires
            old(self).well_formed(),
        ensures
            final(self).well_formed(),
            final(self).rdp_formats == old(self).rdp_formats,
            final(self).advertised == old(self).advertised,
            final(self).pending == old(self).pending,
            final(self).cache@ == old(self).cache@.insert(
                "x-special/gnome-copied-files"@,
                gnome_list@,
            ).insert("text/uri-list"@, uri_list@),
    {
        self.cache.insert("x-special/gnome-copied-files".to_owned(), copy_bytes(gnome_list));
        self.cache.insert("text/uri-list".to_owned(), copy_bytes(uri_list));
    }

    /// The remote's files can be read: what to hand to the clipboard source. Both
    /// lists are kept for later requests.
    pub fn remote_files_prepared(&mut self, prepared: PreparedFiles) -> (provisions: Vec<Provision>)
        requires
            old(self).well_formed(),
        ensures
            final(self).well_formed(),
            final(self).rdp_formats == old(self).rdp_formats,
            final(self).advertised == old(self).advertised,
            final(self).pending == old(self).pending,
            match prepared {
                PreparedFiles::Ready { uri_list, gnome_list } => {
                    &&& provisions@.len() == 2
                    &&& provides(provisions@[0], "text/uri-list"@, uri_list@)
                    &&& provides(provisions@[1], "x-special/gnome-copied-files"@, gnome_list@)
                    &&& final(self).cache@ == old(self).cache@.insert(
                        "x-special/gnome-copied-files"@,
                        gnome_list@,
                    ).insert("text/uri-list"@, uri_list@)
                },
                _ => provisions@.len() == 0 && final(self).cache@ == old(self).cache@,
            },
    {
        let mut provisions: Vec<Provision> = Vec::new();
        match prepared {
            PreparedFiles::Ready { uri_list, gnome_list } => {
                self.keep_file_lists(&uri_list, &gnome_list);
                provisions.push(Provision { mime: "text/uri-list".to_owned(), data: uri_list });
                provisions.push(
                    Provision {
                        mime: "x-special/gnome-copied-files".to_owned(),
                        data: gnome_list,
                    },
                );
            },
            PreparedFiles::Pending => {},
            PreparedFiles::Failed => {},
        }
        provisions
    }
}

// ---------------------------------------------------------------------------
// Data responses: Windows to Linux
// ---------------------------------------------------------------------------

/// What to do with data of the remote.
#[derive(Debug)]
pub enum DataResponseAction {
    /// Nothing.
    Ignore,
    /// Hand the text to the clipboard source, with and without charset.
    ProvideText(Vec<u8>),
    /// Prepare a transfer of these files for a paste.
    PrepareFiles {
        serial: u32,
        mime: String,
        descriptors: Vec<TransferFileDescriptor>,
    },
    /// Complete a paste. Report back whether that worked.
    Deliver(Completion),
    /// Tell a paste that there is nothing.
    Cancel(Completion),
    /// Report the failed conversion.
    Fail(ClipboardError),
}

/// The data answers a paste that would read a bitmap through a blank colour mask.
pub open spec fn reads_blank_mask(pending: Seq<PendingRequest>, data: Seq<u8>) -> bool {
    &&& pending.len() > 0
    &&& pending[0].serial != EAGER_FETCH_SERIAL
    &&& ({
        let route = linux_route_of(pending[0].mime@, data);
        route == LinuxRoute::DibV5ToPng || route == LinuxRoute::DibV5ToJpeg
    })
    &&& has_blank_mask(data)
}

/// What the data comes to for the paste that waits longest.
pub open spec fn response_matches(
    request: PendingRequest,
    data: Seq<u8>,
    can_send: bool,
    action: DataResponseAction,
) -> bool {
    let mime = request.mime@;
    if request.serial == EAGER_FETCH_SERIAL {
        if data.len() >= 2 {
            action is ProvideText && action->ProvideText_0@ == encode_utf8(
                linux_text(unicode_text(data)),
            )
        } else {
            action is Ignore
        }
    } else if is_file_mime(mime) && listed_files(data) is Some {
        if can_send {
            &&& action is PrepareFiles
            &&& action->PrepareFiles_serial == request.serial
            &&& action->PrepareFiles_mime@ == mime
            &&& describe_all(action->descriptors@, listed_files(data)->Some_0, 1)
        } else {
            action is Cancel && cancels(action->Cancel_0, request.serial, mime)
        }
    } else {
        let route = linux_route_of(mime, data);
        match linux_data(route, data) {
            Some(bytes) => action is Deliver && delivers(
                action->Deliver_0,
                request.serial,
                mime,
                bytes,
            ),
            None => action is Fail && is_linux_error(action->Fail_0, route, data),
        }
    }
}

/// Text that went out as `CF_UNICODETEXT` comes in as the Linux form of that text.
pub open spec fn text_arrives(
    request: PendingRequest,
    data: Seq<u8>,
    text: Seq<char>,
    action: DataResponseAction,
) -> bool {
    let expected = encode_utf8(linux_text(text));
    if request.serial == EAGER_FETCH_SERIAL {
        action is ProvideText && action->ProvideText_0@ == expected
    } else if linux_route_of(request.mime@, data) == LinuxRoute::UnicodeText {
        action is Deliver && delivers(
            action->Deliver_0,
            request.serial,
            request.mime@,
            expected,
        )
    } else {
        true
    }
}

/// The content of a file list for a type; the GNOME list for anything else.
pub open spec fn file_list_for(
    mime: Seq<char>,
    uri_list: Seq<u8>,
    gnome_list: Seq<u8>,
) -> Seq<u8> {
    if mime == "text/uri-list"@ {
        uri_list
    } else {
        gnome_list
    }
}

/// A waiting paste is answered from a file list: with it, where it asked for one,
/// else with nothing.
pub open spec fn answers_from_files(
    completion: Completion,
    request: PendingRequest,
    uri_list: Seq<u8>,
    gnome_list: Seq<u8>,
) -> bool {
    if is_file_mime(request.mime@) {
        delivers(
            completion,
            request.serial,
            request.mime@,
            file_list_for(request.mime@, uri_list, gnome_list),
        )
    } else {
        cancels(completion, request.serial, request.mime@)
    }
}

fn file_completion(
    serial: u32,
    mime: &String,
    uri_list: &Vec<u8>,
    gnome_list: &Vec<u8>,
) -> (completion: Completion)
    ensures
        delivers(completion, serial, mime@, file_list_for(mime@, uri_list@, gnome_list@)),
{
    let data: Vec<u8> = if same_text(mime.as_str(), "text/uri-list") {
        copy_bytes(uri_list)
    } else {
        copy_bytes(gnome_list)
    };
    Completion { serial, mime: mime.clone(), data, success: true }
}

fn cancellations(requests: &Vec<PendingRequest>) -> (completions: Vec<Completion>)
    ensures
        cancel_all(completions@, requests@),
{
    let mut completions: Vec<Completion> = Vec::new();
    let mut i: usize = 0;
    while i < requests.len()
        invariant
            i <= requests@.len(),
            completions@.len() == i,
            forall|k: int|
                0 <= k < i ==> cancels(
                    #[trigger] completions@[k],
                    requests@[k].serial,
                    requests@[k].mime@,
                ),
        decreases requests@.len() - i,
    {
        completions.push(cancellation(requests[i].serial, &requests[i].mime));
        i += 1;
    }
    completions
}

impl IngressState {
    /// Whether the data would be read through a blank colour mask.
    pub fn would_read_blank_mask(&self, data: &[u8]) -> (blank: bool)
        ensures
            blank == reads_blank_mask(self.pending@, data@),
    {
        if self.pending.len() == 0 || self.pending[0].serial == EAGER_FETCH_SERIAL {
            return false;
        }
        match linux_route(self.pending[0].mime.as_str(), data) {
            LinuxRoute::DibV5ToPng => blank_mask(data),
            LinuxRoute::DibV5ToJpeg => blank_mask(data),
            _ => false,
        }
    }

    /// The remote sent data. Nothing ties it to a request, so it belongs to the
    /// paste that waits longest. `should_transfer` is false for an echo of data that
    /// this side sent itself.
    pub fn handle_rdp_data_response(
        &mut self,
        data: Vec<u8>,
        should_transfer: bool,
        has_provider: bool,
        can_send: bool,
    ) -> (action: DataResponseAction)
        requires
            old(self).well_formed(),
            should_transfer && has_provider ==> !reads_blank_mask(old(self).pending@, data@),
        ensures
            final(self).well_formed(),
            final(self).rdp_formats == old(self).rdp_formats,
            final(self).advertised == old(self).advertised,
            final(self).cache == old(self).cache,
            ({
                let taken = should_transfer && has_provider && old(self).pending@.len() > 0;
                &&& !taken ==> action is Ignore && final(self).pending@ == old(self).pending@
                &&& taken ==> {
                    &&& final(self).pending@ == old(self).pending@.skip(1)
                    &&& response_matches(old(self).pending@[0], data@, can_send, action)
                    &&& forall|text: Seq<char>|
                        data@ == #[trigger] unicode_text_bytes(text) ==> text_arrives(
                            old(self).pending@[0],
                            data@,
                            text,
                            action,
                        )
                }
            }),
    {
        if !should_transfer || !has_provider || self.pending.len() == 0 {
            return DataResponseAction::Ignore;
        }
        let ghost queue = self.pending@;
        let request: PendingRequest = self.pending.remove(0);
        assert(self.pending@ =~= queue.skip(1));
        proof {
            reveal_strlit("text/plain");
            reveal_strlit("text/html");
            reveal_strlit("text/uri-list");
            reveal_strlit("x-special/gnome-copied-files");
            if is_file_mime(request.mime@) {
                assert("text/uri-list"@[5] != "text/plain"@[5]);
                assert("text/uri-list"@[5] != "text/html"@[5]);
                assert("x-special/gnome-copied-files"@[0] != "text/plain"@[0]);
                assert("x-special/gnome-copied-files"@[0] != "text/html"@[0]);
                assert(forall|prefix: Seq<char>, i: int|
                    0 <= i < prefix.len() && #[trigger] prefix.is_prefix_of(request.mime@)
                        ==> #[trigger] prefix[i] == request.mime@[i]);
            }
        }
        if request.serial == EAGER_FETCH_SERIAL {
            if data.len() >= 2 {
                return DataResponseAction::ProvideText(text_from_unicode(data.as_slice()));
            }
            return DataResponseAction::Ignore;
        }
        if file_mime(request.mime.as_str()) {
            if let Some(descriptors) = descriptors_from_list(data.as_slice(), 1) {
                if can_send {
                    return DataResponseAction::PrepareFiles {
                        serial: request.serial,
                        mime: request.mime,
                        descriptors,
                    };
                }
                return DataResponseAction::Cancel(cancellation(request.serial, &request.mime));
            }
        }
        let route: LinuxRoute = linux_route(request.mime.as_str(), data.as_slice());
        match to_linux(route, data) {
            Ok(bytes) => DataResponseAction::Deliver(
                Completion {
                    serial: request.serial,
                    mime: request.mime,
                    data: bytes,
                    success: true,
                },
            ),
            Err(error) => DataResponseAction::Fail(error),
        }
    }

    /// A file transfer for a paste was prepared: how to complete that paste.
    /// `None` leaves it to the announcement that follows.
    pub fn files_prepared(serial: u32, mime: &String, prepared: &PreparedFiles) -> (completion:
        Option<Completion>)
        ensures
            match *prepared {
                PreparedFiles::Ready { uri_list, gnome_list } => completion is Some && delivers(
                    completion->Some_0,
                    serial,
                    mime@,
                    file_list_for(mime@, uri_list@, gnome_list@),
                ),
                PreparedFiles::Pending => completion is None,
                PreparedFiles::Failed => completion is Some && cancels(
                    completion->Some_0,
                    serial,
                    mime@,
                ),
            },
    {
        match prepared {
            PreparedFiles::Ready { uri_list, gnome_list } => Some(
                file_completion(serial, mime, uri_list, gnome_list),
            ),
            PreparedFiles::Pending => None,
            PreparedFiles::Failed => Some(cancellation(serial, mime)),
        }
    }

    /// A paste got its file list: every other waiting paste is answered from the
    /// same lists, and both are kept for later requests. Nothing waits any more.
    pub fn files_delivered(
        &mut self,
        serial: u32,
        uri_list: Vec<u8>,
        gnome_list: Vec<u8>,
    ) -> (completions: Vec<Completion>)
        requires
            old(self).well_formed(),
        ensures
            final(self).well_formed(),
            final(self).rdp_formats == old(self).rdp_formats,
            final(self).advertised == old(self).advertised,
            final(self).pending@.len() == 0,
            final(self).cache@ == old(self).cache@.insert(
                "x-special/gnome-copied-files"@,
                gnome_list@,
            ).insert("text/uri-list"@, uri_list@),
            ({
                let others = old(self).pending@.filter(other_than(serial));
                &&& completions@.len() == others.len()
                &&& forall|i: int|
                    0 <= i < others.len() ==> answers_from_files(
                        #[trigger] completions@[i],
                        others[i],
                        uri_list@,
                        gnome_list@,
                    )
            }),
    {
        let others: Vec<PendingRequest> = self.others(serial);
        self.pending.clear();
        self.keep_file_lists(&uri_list, &gnome_list);
        let mut completions: Vec<Completion> = Vec::new();
        let mut i: usize = 0;
        while i < others.len()
            invariant
                i <= others@.len(),
                completions@.len() == i,
                forall|k: int|
                    0 <= k < i ==> answers_from_files(
                        #[trigger] completions@[k],
                        others@[k],
                        uri_list@,
                        gnome_list@,
                    ),
            decreases others@.len() - i,
        {
            let request = &others[i];
            let completion = if file_mime(request.mime.as_str()) {
                file_completion(request.serial, &request.mime, &uri_list, &gnome_list)
            } else {
                cancellation(request.serial, &request.mime)
            };
            completions.push(completion);
            i += 1;
        }
        completions
    }

    /// A paste got its data: the data is kept for later requests of the same type,
    /// and every other waiting paste is cancelled, since an application asks for
    /// several types at once. Nothing waits any more.
    pub fn data_delivered(&mut self, serial: u32, mime: String, data: Vec<u8>) -> (completions: Vec<
        Completion,
    >)
        requires
            old(self).well_formed(),
        ensures
            final(self).well_formed(),
            final(self).rdp_formats == old(self).rdp_formats,
            final(self).advertised == old(self).advertised,
            final(self).pending@.len() == 0,
            final(self).cache@ == old(self).cache@.insert(mime@, data@),
            cancel_all(completions@, old(self).pending@.filter(other_than(serial))),
    {
        self.cache.insert(mime, data);
        let others: Vec<PendingRequest> = self.others(serial);
        self.pending.clear();
        cancellations(&others)
    }

    /// A paste could not be completed: it does not wait any more.
    pub fn delivery_failed(&mut self, serial: u32)
        requires
            old(self).well_formed(),
        ensures
            final(self).well_formed(),
            final(self).rdp_formats == old(self).rdp_formats,
            final(self).advertised == old(self).advertised,
            final(self).cache == old(self).cache,
            final(self).pending@ == old(self).pending@.filter(other_than(serial)),
    {
        self.drop_serial(serial);
    }

    /// The remote has no data for what was asked: every waiting paste is told so,
    /// where there is someone to tell, and nothing waits any more.
    pub fn handle_rdp_data_error(&mut self, has_provider: bool) -> (completions: Vec<Completion>)
        requires
            old(self).well_formed(),
        ensures
            final(self).well_formed(),
            final(self).rdp_formats == old(self).rdp_formats,
            final(self).advertised == old(self).advertised,
            final(self).cache == old(self).cache,
            final(self).pending@.len() == 0,
            has_provider ==> cancel_all(completions@, old(self).pending@),
            !has_provider ==> completions@.len() == 0,
    {
        let completions: Vec<Completion> = if has_provider {
            cancellations(&self.pending)
        } else {
            Vec::new()
        };
        self.pending.clear();
        completions
    }
}

// ---------------------------------------------------------------------------
// Laws
// ---------------------------------------------------------------------------

proof fn lemma_requested_name(formats: Seq<ClipboardFormat>, format_id: u32, from: int, i: int)
    requires
        0 <= from <= i < formats.len(),
        formats[i].id == format_id || (format_id == 0 && formats[i].name is Some),
        forall|j: int|
            from <= j < i ==> (#[trigger] formats[j]).id != format_id && (format_id == 0
                ==> formats[j].name is None),
    ensures
        requested_name(formats, format_id, from) == formats[i].name,
    decreases i - from,
{
    if from < i {
        assert(formats[from].id != format_id);
        lemma_requested_name(formats, format_id, from + 1, i);
    }
}

proof fn lemma_no_requested_name(formats: Seq<ClipboardFormat>, format_id: u32, from: int)
    requires
        0 <= from <= formats.len(),
        forall|j: int|
            from <= j < formats.len() ==> (#[trigger] formats[j]).id != format_id && (format_id == 0
                ==> formats[j].name is None),
    ensures
        requested_name(formats, format_id, from) is None,
    decreases formats.len() - from,
{
    if from < formats.len() {
        assert(formats[from].id != format_id);
        lemma_no_requested_name(formats, format_id, from + 1);
    }
}

/// The file list is asked for under the number that it was announced with: by the
/// first format with that number, and by its name alone.
pub proof fn lemma_file_list_goes_by_number(
    formats: Seq<ClipboardFormat>,
    format_id: u32,
    i: int,
)
    requires
        format_id != 0,
        0 <= i < formats.len(),
        formats[i].id == format_id,
        forall|j: int| 0 <= j < i ==> (#[trigger] formats[j]).id != format_id,
    ensures
        asks_for_file_list(formats, format_id) <==> formats[i].name is Some
            && formats[i].name->Some_0@ == "FileGroupDescriptorW"@,
{
    lemma_requested_name(formats, format_id, 0, i);
}

/// A number that was not announced asks for no file list.
pub proof fn lemma_unknown_numbers_ask_for_no_file_list(
    formats: Seq<ClipboardFormat>,
    format_id: u32,
)
    requires
        format_id != 0,
        forall|j: int| 0 <= j < formats.len() ==> (#[trigger] formats[j]).id != format_id,
    ensures
        !asks_for_file_list(formats, format_id),
{
    lemma_no_requested_name(formats, format_id, 0);
}

/// The number 0 stands for the first format that has a name, or has that number.
pub proof fn lemma_number_zero_stands_for_a_name(formats: Seq<ClipboardFormat>, i: int)
    requires
        0 <= i < formats.len(),
        formats[i].id == 0 || formats[i].name is Some,
        forall|j: int|
            0 <= j < i ==> (#[trigger] formats[j]).id != 0 && formats[j].name is None,
    ensures
        asks_for_file_list(formats, 0) <==> formats[i].name is Some && formats[i].name->Some_0@
            == "FileGroupDescriptorW"@,
{
    lemma_requested_name(formats, 0, 0, i);
}

/// A format is found by its name: the first one that has it, under its number.
pub proof fn lemma_formats_are_found_by_name(
    formats: Seq<ClipboardFormat>,
    name: Seq<char>,
    from: int,
    i: int,
)
    requires
        0 <= from <= i < formats.len(),
        formats[i].name is Some,
        formats[i].name->Some_0@ == name,
        forall|j: int|
            from <= j < i && (#[trigger] formats[j]).name is Some ==> formats[j].name->Some_0@
                != name,
    ensures
        first_named(formats, name, from) == Some(formats[i].id),
    decreases i - from,
{
    if from < i {
        assert(formats[from].name is Some ==> formats[from].name->Some_0@ != name);
        lemma_formats_are_found_by_name(formats, name, from + 1, i);
    }
}

/// A name that no format has is not found.
pub proof fn lemma_unknown_names_are_not_found(
    formats: Seq<ClipboardFormat>,
    name: Seq<char>,
    from: int,
)
    requires
        0 <= from <= formats.len(),
        forall|j: int|
            from <= j < formats.len() && (#[trigger] formats[j]).name is Some
                ==> formats[j].name->Some_0@ != name,
    ensures
        first_named(formats, name, from) is None,
    decreases formats.len() - from,
{
    if from < formats.len() {
        assert(formats[from].name is Some ==> formats[from].name->Some_0@ != name);
        lemma_unknown_names_are_not_found(formats, name, from + 1);
    }
}

/// All types of the remote are announced, in their order, and nothing else but the
/// hint: never without being asked for, always where it is, and never once more.
pub proof fn lemma_types_are_announced_as_they_are(mime_types: Seq<Seq<char>>, hint: bool)
    ensures
        mime_types.is_prefix_of(announced(mime_types, hint)),
        !hint ==> announced(mime_types, hint) == mime_types,
        hint ==> announced(mime_types, hint).contains("application/x-kde-syncselection"@),
        announced(mime_types, hint).len() <= mime_types.len() + 1,
        mime_types.contains("application/x-kde-syncselection"@) ==> announced(mime_types, hint)
            == mime_types,
        announced(mime_types, hint).len() > mime_types.len() ==> announced(mime_types, hint).last()
            == "application/x-kde-syncselection"@,
        announced(announced(mime_types, hint), hint) == announced(mime_types, hint),
{
    let list = announced(mime_types, hint);
    assert(list.subrange(0, mime_types.len() as int) =~= mime_types);
    if hint && !mime_types.contains("application/x-kde-syncselection"@) {
        assert(list[mime_types.len() as int] == "application/x-kde-syncselection"@);
    }
}

/// Text is fetched ahead where both sides speak of text: a plain text type, with or
/// without parameters, and the number of Unicode text.
pub proof fn lemma_text_is_offered_by_both_sides(
    mime_types: Seq<String>,
    formats: Seq<ClipboardFormat>,
    rest: Seq<char>,
    i: int,
    k: int,
)
    requires
        0 <= i < mime_types.len(),
        mime_types[i]@ == "text/plain"@ + rest,
        0 <= k < formats.len(),
        formats[k].id == 13,
    ensures
        offers_text(mime_types, formats),
{
    assert(mime_types[i]@.subrange(0, "text/plain"@.len() as int) =~= "text/plain"@);
}

/// Without Unicode text among the formats, or without a plain text type, no text is
/// offered.
pub proof fn lemma_no_text_is_offered(mime_types: Seq<String>, formats: Seq<ClipboardFormat>)
    requires
        (forall|k: int| 0 <= k < formats.len() ==> (#[trigger] formats[k]).id != 13) || (forall|i: int|
            0 <= i < mime_types.len() ==> !"text/plain"@.is_prefix_of(#[trigger] mime_types[i]@)),
    ensures
        !offers_text(mime_types, formats),
{
}

/// Files are offered under either of two types, and under no other.
pub proof fn lemma_files_are_offered_under_two_types(mime_types: Seq<String>)
    ensures
        offers_files(mime_types) <==> exists|i: int|
            0 <= i < mime_types.len() && ((#[trigger] mime_types[i])@ == "text/uri-list"@
                || mime_types[i]@ == "x-special/gnome-copied-files"@),
{
    if exists|i: int|
        0 <= i < mime_types.len() && ((#[trigger] mime_types[i])@ == "text/uri-list"@
            || mime_types[i]@ == "x-special/gnome-copied-files"@) {
        let i = choose|i: int|
            0 <= i < mime_types.len() && ((#[trigger] mime_types[i])@ == "text/uri-list"@
                || mime_types[i]@ == "x-special/gnome-copied-files"@);
        assert(is_file_mime(mime_types[i]@));
    }
}

/// What the clipboard manager synchronised answers requests for text alone: Unicode
/// text as it is, and single-byte text by its characters, with a NUL at the end.
pub proof fn lemma_synchronised_text_answers_for_text(format_id: u32, data: Seq<u8>)
    ensures
        cooperation_reply(13, Some(data)) == Some(data),
        cooperation_reply(1, Some(data)) is Some,
        cooperation_reply(1, Some(data))->Some_0.last() == 0,
        cooperation_reply(1, Some(data))->Some_0.drop_last() == encode_utf8(
            trim_trailing_nul(utf16_lossy(le_units(data))),
        ),
        format_id != 13 && format_id != 1 ==> cooperation_reply(format_id, Some(data)) is None,
        cooperation_reply(format_id, None) is None,
{
    let text = encode_utf8(trim_trailing_nul(utf16_lossy(le_units(data))));
    assert(text.push(0).drop_last() =~= text);
}

/// A completion says which paste it ends, and whether there is data.
pub proof fn lemma_completions_name_their_paste(
    completion: Completion,
    request: PendingRequest,
    data: Seq<u8>,
)
    ensures
        delivers(completion, request.serial, request.mime@, data) <==> completion.success
            && completion.data@ == data && completion.serial == request.serial && completion.mime@
            == request.mime@,
        cancels(completion, request.serial, request.mime@) <==> !completion.success
            && completion.data@ == Seq::<u8>::empty() && completion.serial == request.serial
            && completion.mime@ == request.mime@,
{
    assert(completion.data@.len() == 0 <==> completion.data@ =~= Seq::<u8>::empty());
}

/// Cancelling ends every paste of a list once, in order, each without data.
pub proof fn lemma_cancelling_ends_every_paste(
    completions: Seq<Completion>,
    requests: Seq<PendingRequest>,
    i: int,
)
    requires
        cancel_all(completions, requests),
        0 <= i < requests.len(),
    ensures
        completions.len() == requests.len(),
        completions[i].serial == requests[i].serial,
        completions[i].mime@ == requests[i].mime@,
        completions[i].data@.len() == 0,
        !completions[i].success,
{
}

/// One serial leaves the queue, all others stay in their order.
pub proof fn lemma_others_keep_waiting(pending: Seq<PendingRequest>, serial: u32)
    ensures
        forall|i: int|
            0 <= i < pending.filter(other_than(serial)).len() ==> (#[trigger] pending.filter(
                other_than(serial),
            )[i]).serial != serial,
        forall|i: int|
            0 <= i < pending.len() && (#[trigger] pending[i]).serial != serial ==> pending.filter(
                other_than(serial),
            ).contains(pending[i]),
        (forall|i: int| 0 <= i < pending.len() ==> (#[trigger] pending[i]).serial != serial)
            ==> pending.filter(other_than(serial)) == pending,
    decreases pending.len(),
{
    let keep = other_than(serial);
    pending.filter_lemma(keep);
    assert forall|i: int| 0 <= i < pending.filter(keep).len() implies (#[trigger] pending.filter(
        keep,
    )[i]).serial != serial by {
        assert(keep(pending.filter(keep)[i]));
    }
    assert forall|i: int| 0 <= i < pending.len() && (#[trigger] pending[i]).serial
        != serial implies pending.filter(keep).contains(pending[i]) by {
        assert(keep(pending[i]));
    }
    if forall|i: int| 0 <= i < pending.len() ==> (#[trigger] pending[i]).serial != serial {
        reveal(Seq::filter);
        if pending.len() > 0 {
            let earlier = pending.drop_last();
            assert forall|i: int| 0 <= i < earlier.len() implies (#[trigger] earlier[i]).serial
                != serial by {
                assert(earlier[i] == pending[i]);
            }
            lemma_others_keep_waiting(earlier, serial);
            assert(pending[pending.len() - 1].serial != serial);
            assert(earlier.push(pending.last()) =~= pending);
        }
    }
}

/// A paste of files gets the list of its own type, every other paste nothing.
pub proof fn lemma_file_pastes_get_their_own_list(
    completion: Completion,
    request: PendingRequest,
    uri_list: Seq<u8>,
    gnome_list: Seq<u8>,
)
    requires
        answers_from_files(completion, request, uri_list, gnome_list),
    ensures
        completion.serial == request.serial,
        completion.mime@ == request.mime@,
        completion.success <==> request.mime@ == "text/uri-list"@ || request.mime@
            == "x-special/gnome-copied-files"@,
        request.mime@ == "text/uri-list"@ ==> completion.data@ == uri_list,
        request.mime@ == "x-special/gnome-copied-files"@ ==> completion.data@ == gnome_list,
        !completion.success ==> completion.data@.len() == 0,
{
    reveal_strlit("text/uri-list");
    reveal_strlit("x-special/gnome-copied-files");
    assert("text/uri-list"@.len() != "x-special/gnome-copied-files"@.len());
}

/// What is handed to the clipboard source or to a paste names the paste that waited:
/// nothing but the server's own fetch becomes provided text, and every other answer
/// carries the serial and the type of the paste.
pub proof fn lemma_answers_belong_to_the_paste(
    request: PendingRequest,
    data: Seq<u8>,
    can_send: bool,
    action: DataResponseAction,
)
    requires
        response_matches(request, data, can_send, action),
    ensures
        action is ProvideText <==> request.serial == 0xFFFF_FFFF && data.len() >= 2,
        action is Ignore <==> request.serial == 0xFFFF_FFFF && data.len() < 2,
        action is ProvideText ==> action->ProvideText_0@ == encode_utf8(
            linux_text(unicode_text(data)),
        ),
        action is Deliver ==> action->Deliver_0.serial == request.serial
            && action->Deliver_0.mime@ == request.mime@ && action->Deliver_0.success,
        action is Cancel ==> action->Cancel_0.serial == request.serial && action->Cancel_0.mime@
            == request.mime@ && !action->Cancel_0.success && action->Cancel_0.data@.len() == 0,
        action is PrepareFiles ==> action->PrepareFiles_serial == request.serial
            && action->PrepareFiles_mime@ == request.mime@,
        action is PrepareFiles || action is Cancel ==> request.mime@ == "text/uri-list"@
            || request.mime@ == "x-special/gnome-copied-files"@,
        action is PrepareFiles ==> can_send,
        action is Cancel ==> !can_send,
{
}

/// A paste of files whose data is a file list is prepared, or cancelled where nothing
/// can be sent; every file of the list has its descriptor.
pub proof fn lemma_file_lists_become_transfers(
    request: PendingRequest,
    data: Seq<u8>,
    can_send: bool,
    action: DataResponseAction,
)
    requires
        response_matches(request, data, can_send, action),
        request.serial != 0xFFFF_FFFF,
        request.mime@ == "text/uri-list"@ || request.mime@ == "x-special/gnome-copied-files"@,
        listed_files(data) is Some,
    ensures
        can_send ==> action is PrepareFiles && action->descriptors@.len()
            == listed_files(data)->Some_0.len(),
        !can_send ==> action is Cancel,
{
}

/// A paste of plain text or HTML gets the text of the data, whatever parameters its
/// type has.
pub proof fn lemma_text_pastes_get_text(
    request: PendingRequest,
    data: Seq<u8>,
    can_send: bool,
    action: DataResponseAction,
    rest: Seq<char>,
)
    requires
        response_matches(request, data, can_send, action),
        request.serial != 0xFFFF_FFFF,
        request.mime@ == "text/plain"@ + rest || request.mime@ == "text/html"@ + rest,
        data.len() >= 2,
    ensures
        action is Deliver,
        action->Deliver_0.data@ == encode_utf8(linux_text(unicode_text(data))),
{
    lemma_text_types_are_wide(request.mime@, rest, data);
    reveal_strlit("text/plain");
    reveal_strlit("text/html");
    reveal_strlit("text/uri-list");
    reveal_strlit("x-special/gnome-copied-files");
    let mime = request.mime@;
    assert(mime[0] == 't' && mime[5] != 'u');
    assert("text/uri-list"@[5] == 'u' && "x-special/gnome-copied-files"@[0] == 'x');
}

/// The two types of a file list get their own list, and both are file types.
pub proof fn lemma_file_types_have_their_own_list(
    mime: Seq<char>,
    uri_list: Seq<u8>,
    gnome_list: Seq<u8>,
)
    ensures
        file_list_for("text/uri-list"@, uri_list, gnome_list) == uri_list,
        file_list_for("x-special/gnome-copied-files"@, uri_list, gnome_list) == gnome_list,
        is_file_mime(mime) <==> mime == "text/uri-list"@ || mime
            == "x-special/gnome-copied-files"@,
{
    reveal_strlit("text/uri-list");
    reveal_strlit("x-special/gnome-copied-files");
    assert("text/uri-list"@.len() != "x-special/gnome-copied-files"@.len());
}

/// What is provided carries its type and its data.
pub proof fn lemma_provisions_carry_their_data(
    provision: Provision,
    mime: Seq<char>,
    data: Seq<u8>,
)
    requires
        provides(provision, mime, data),
    ensures
        provision.mime@ == mime,
        provision.data@ == data,
{
}

/// A text that is sent arrives: at the paste that waits for plain text or HTML, or at the
/// clipboard where the server fetched it by itself.
pub proof fn lemma_sent_text_arrives(
    request: PendingRequest,
    text: Seq<char>,
    action: DataResponseAction,
    rest: Seq<char>,
)
    requires
        text_arrives(request, unicode_text_bytes(text), text, action),
    ensures
        request.serial == 0xFFFF_FFFF ==> action is ProvideText && action->ProvideText_0@
            == encode_utf8(linux_text(text)),
        request.serial != 0xFFFF_FFFF && (request.mime@ == "text/plain"@ + rest || request.mime@
            == "text/html"@ + rest) ==> {
            &&& action is Deliver
            &&& action->Deliver_0.serial == request.serial
            &&& action->Deliver_0.mime@ == request.mime@
            &&& action->Deliver_0.success
            &&& action->Deliver_0.data@ == encode_utf8(linux_text(text))
        },
{
    lemma_clipboard_text_is_terminated(text);
    if request.mime@ == "text/plain"@ + rest || request.mime@ == "text/html"@ + rest {
        lemma_text_types_are_wide(request.mime@, rest, unicode_text_bytes(text));
    }
}

/// Only the oldest paste reads a mask, and only out of a bitmap of version 5.
pub proof fn lemma_masks_are_read_for_the_oldest_paste(
    pending: Seq<PendingRequest>,
    later: Seq<PendingRequest>,
    data: Seq<u8>,
)
    ensures
        pending.len() > 0 ==> reads_blank_mask(pending + later, data) == reads_blank_mask(
            pending.take(1),
            data,
        ),
        reads_blank_mask(pending, data) ==> pending.len() > 0 && pending[0].serial != 0xFFFF_FFFF
            && data[0] == 124 && has_blank_mask(data),
        pending.len() > 0 && pending[0].serial != 0xFFFF_FFFF && has_blank_mask(data) && (
        linux_route_of(pending[0].mime@, data) == LinuxRoute::DibV5ToPng || linux_route_of(
            pending[0].mime@,
            data,
        ) == LinuxRoute::DibV5ToJpeg) ==> reads_blank_mask(pending, data),
{
    lemma_blank_masks_have_no_bit(data);
    if pending.len() > 0 {
        assert((pending + later)[0] == pending[0]);
        assert(pending.take(1)[0] == pending[0]);
    }
}

} // verus!
