use lamco_rdp_server::clipboard::convert::ClipboardError;
use lamco_rdp_server::clipboard::file_transfer::descriptors::RemoteFile;
use lamco_rdp_server::clipboard::manager::cache::TransferCache;
use lamco_rdp_server::clipboard::manager::rdp_ingress::{
    after_gnome_list, answer_data_request, answer_file_list_request, plan_remote_file_list,
    reply_from_cooperation_cache, ClipboardFormat, Completion, ConvertedFormats, DataReply,
    DataRequestRoute, DataResponseAction, FormatListAction, IngressState, PendingRequest,
    PreparedFiles, UpfrontFetch, UriSource, EAGER_FETCH_SERIAL,
};

fn format(id: u32, name: Option<&str>) -> ClipboardFormat {
    ClipboardFormat { id, name: name.map(str::to_string) }
}

fn request(serial: u32, mime: &str) -> PendingRequest {
    PendingRequest { serial, mime: mime.to_string(), requested_at: 0 }
}

fn mimes(list: &[&str]) -> Vec<String> {
    list.iter().map(|m| m.to_string()).collect()
}

fn cancelled(serial: u32, mime: &str) -> Completion {
    Completion { serial, mime: mime.to_string(), data: Vec::new(), success: false }
}

fn delivered(serial: u32, mime: &str, data: &[u8]) -> Completion {
    Completion { serial, mime: mime.to_string(), data: data.to_vec(), success: true }
}

#[test]
fn echoes_and_empty_lists_are_skipped() {
    let mut state = IngressState::new();
    state.advertised.push(format(13, None));
    let action =
        state.handle_rdp_format_list(vec![format(1, None)], ConvertedFormats::Loop, true, true);
    assert!(matches!(action, FormatListAction::SkipLoop));
    let action = state.handle_rdp_format_list(
        Vec::new(),
        ConvertedFormats::MimeTypes(Vec::new()),
        true,
        true,
    );
    assert!(matches!(action, FormatListAction::SkipEmpty));
    let action =
        state.handle_rdp_format_list(Vec::new(), ConvertedFormats::Unconvertible, true, true);
    assert!(matches!(action, FormatListAction::Fail));
    assert_eq!(state.advertised.len(), 1);
    assert!(state.rdp_formats.is_empty());
}

#[test]
fn announcing_voids_what_was_advertised() {
    let mut state = IngressState::new();
    state.advertised.push(format(13, None));
    let action = state.handle_rdp_format_list(
        vec![format(13, None)],
        ConvertedFormats::MimeTypes(mimes(&["text/plain"])),
        false,
        true,
    );
    match action {
        FormatListAction::Announce(list) => assert_eq!(list, mimes(&["text/plain"])),
        other => panic!("unexpected {other:?}"),
    }
    assert!(state.advertised.is_empty());
    assert_eq!(state.rdp_formats, vec![format(13, None)]);
}

#[test]
fn the_hint_is_added_once_and_only_for_klipper() {
    let hint = "application/x-kde-syncselection";
    let mut state = IngressState::new();
    let mut announce = |list: &[&str], hinted: bool, present: bool| {
        let converted = ConvertedFormats::MimeTypes(mimes(list));
        match state.handle_rdp_format_list(Vec::new(), converted, hinted, present) {
            FormatListAction::Announce(list) => list,
            other => panic!("unexpected {other:?}"),
        }
    };
    assert_eq!(announce(&["text/html"], true, true), mimes(&["text/html", hint]));
    assert_eq!(announce(&[hint, "x"], true, true), mimes(&[hint, "x"]));
    assert_eq!(announce(&["text/html"], true, false), mimes(&["text/html"]));
    assert_eq!(announce(&["text/html"], false, true), mimes(&["text/html"]));
}

#[test]
fn sources_in_memory_are_filled_up_front() {
    let mut state = IngressState::new();
    state.rdp_formats = vec![
        format(13, None),
        format(49430, Some("FileGroupDescriptorW")),
        format(7, Some("FileGroupDescriptorW")),
    ];
    let offered = mimes(&["text/plain;charset=utf-8", "text/uri-list"]);
    assert_eq!(
        state.plan_upfront_fetch(&offered, false, true, 5),
        UpfrontFetch { text: false, files: None }
    );
    assert_eq!(
        state.plan_upfront_fetch(&offered, true, true, 5),
        UpfrontFetch { text: true, files: Some(49430) }
    );
    assert_eq!(
        state.pending,
        vec![PendingRequest {
            serial: EAGER_FETCH_SERIAL,
            mime: "text/plain".to_string(),
            requested_at: 5,
        }]
    );
    state.pending.push(request(3, "text/html"));
    state.upfront_fetch_failed();
    assert_eq!(state.pending, vec![request(3, "text/html")]);
}

#[test]
fn nothing_is_fetched_where_nothing_can_be_sent() {
    let mut state = IngressState::new();
    state.rdp_formats = vec![format(13, None), format(9, Some("FileGroupDescriptorW"))];
    state.pending = vec![request(EAGER_FETCH_SERIAL, "text/plain"), request(1, "x")];
    let offered = mimes(&["text/plain", "x-special/gnome-copied-files"]);
    assert_eq!(
        state.plan_upfront_fetch(&offered, true, false, 0),
        UpfrontFetch { text: false, files: None }
    );
    assert_eq!(state.pending, vec![request(1, "x")]);
}

#[test]
fn text_is_fetched_only_as_unicode_text() {
    let mut state = IngressState::new();
    state.rdp_formats = vec![format(1, None)];
    let fetch = state.plan_upfront_fetch(&mimes(&["text/plain"]), true, true, 0);
    assert_eq!(fetch, UpfrontFetch { text: false, files: None });
    assert!(state.pending.is_empty());
}

#[test]
fn synchronised_text_answers_text_requests() {
    let cached = vec![0x68, 0, 0x69, 0, 0, 0];
    assert_eq!(reply_from_cooperation_cache(13, Some(&cached)), Some(cached.clone()));
    assert_eq!(reply_from_cooperation_cache(1, Some(&cached)), Some(b"hi\0".to_vec()));
    assert_eq!(reply_from_cooperation_cache(8, Some(&cached)), None);
    assert_eq!(reply_from_cooperation_cache(13, None), None);
}

#[test]
fn requests_are_routed() {
    let mut state = IngressState::new();
    state.advertised = vec![
        format(13, None),
        format(0, Some("FileGroupDescriptorW")),
        format(8, Some("Other")),
    ];
    let cached = vec![0x68, 0];
    let plan = state.plan_data_request(13, Some(&cached), true, Some("text/plain".to_string()));
    assert_eq!(plan.cached_reply, Some(cached.clone()));
    assert!(matches!(plan.route, DataRequestRoute::Read(mime) if mime == "text/plain"));
    let plan = state.plan_data_request(13, Some(&cached), false, None);
    assert_eq!(plan.cached_reply, None);
    assert!(matches!(plan.route, DataRequestRoute::Refuse));
    // Format 0 is the first format with a name.
    let plan = state.plan_data_request(0, None, true, Some("x".to_string()));
    assert!(matches!(plan.route, DataRequestRoute::FileList));
    let plan = state.plan_data_request(8, None, true, Some("image/png".to_string()));
    assert!(matches!(plan.route, DataRequestRoute::Read(_)));
}

#[test]
fn requests_are_answered_with_converted_data() {
    match answer_data_request(13, "text/plain", Some(b"a\n".to_vec())) {
        DataReply::Send(data) => assert_eq!(data, vec![0x61, 0, 0x0D, 0, 0x0A, 0, 0, 0]),
        other => panic!("unexpected {other:?}"),
    }
    assert!(matches!(answer_data_request(13, "text/plain", None), DataReply::Refuse));
    // A JPEG file with a marker that no head holds.
    let unusual = vec![0xFF, 0xD8, 0xFF, 0xC9, 0, 2];
    match answer_data_request(17, "image/jpeg", Some(unusual.clone())) {
        DataReply::Unfit(data) => assert_eq!(data, unusual),
        other => panic!("{other:?}"),
    }
    assert!(matches!(answer_data_request(8, "image/jpeg", Some(vec![1])), DataReply::Fail(_)));
    assert!(matches!(
        answer_data_request(8, "image/png", Some(vec![1])),
        DataReply::Fail(ClipboardError::Core(_))
    ));
}

#[test]
fn the_richer_file_list_is_preferred() {
    assert!(matches!(after_gnome_list(Some(vec![1])), UriSource::Use(data) if data == [1]));
    assert!(matches!(after_gnome_list(Some(Vec::new())), UriSource::ReadUriList));
    assert!(matches!(after_gnome_list(None), UriSource::ReadUriList));
    assert!(matches!(answer_file_list_request(0, Some(vec![1])), DataReply::Refuse));
    assert!(matches!(answer_file_list_request(1, None), DataReply::Refuse));
    assert!(matches!(answer_file_list_request(1, Some(vec![1])), DataReply::Send(_)));
}

#[test]
fn remote_files_become_descriptors() {
    let files = vec![
        RemoteFile { name: "a/b.txt".to_string(), size: Some(9) },
        RemoteFile { name: "".to_string(), size: None },
    ];
    let list = plan_remote_file_list(&files, Some(7), Some(true), true).expect("descriptors");
    assert_eq!(list.len(), 2);
    assert_eq!(list[0].filename, "a_b.txt");
    assert_eq!(list[0].size, 9);
    assert_eq!(list[0].clip_data_id, 7);
    assert_eq!(list[1].filename, "_unnamed_");
    assert_eq!(list[1].size, 0);
    assert_eq!(list[1].file_index, 1);
    assert_eq!(plan_remote_file_list(&files, None, Some(true), true).unwrap()[0].clip_data_id, 1);
    assert!(plan_remote_file_list(&files, None, Some(false), true).is_none());
    assert!(plan_remote_file_list(&files, None, None, true).is_none());
    assert!(plan_remote_file_list(&files, None, Some(true), false).is_none());
    assert!(plan_remote_file_list(&[], None, Some(true), true).is_none());
}

#[test]
fn prepared_remote_files_are_provided_and_kept() {
    let mut state = IngressState::new();
    let provisions = state.remote_files_prepared(PreparedFiles::Ready {
        uri_list: vec![1],
        gnome_list: vec![2],
    });
    assert_eq!(provisions.len(), 2);
    assert_eq!(provisions[0].mime, "text/uri-list");
    assert_eq!(provisions[0].data, vec![1]);
    assert_eq!(provisions[1].mime, "x-special/gnome-copied-files");
    assert_eq!(state.cache.get("text/uri-list"), Some(&vec![1]));
    assert_eq!(state.cache.get("x-special/gnome-copied-files"), Some(&vec![2]));
    assert!(state.remote_files_prepared(PreparedFiles::Pending).is_empty());
}

#[test]
fn data_belongs_to_the_oldest_paste() {
    let mut state = IngressState::new();
    state.pending = vec![request(1, "text/plain"), request(2, "text/html")];
    let action = state.handle_rdp_data_response(vec![0x61, 0, 0x0D, 0, 0x0A, 0], true, true, true);
    match action {
        DataResponseAction::Deliver(done) => {
            assert_eq!(done, delivered(1, "text/plain", b"a\n"));
        }
        other => panic!("unexpected {other:?}"),
    }
    assert_eq!(state.pending, vec![request(2, "text/html")]);
    let rest = state.data_delivered(1, "text/plain".to_string(), b"a\n".to_vec());
    assert_eq!(rest, vec![cancelled(2, "text/html")]);
    assert!(state.pending.is_empty());
    assert_eq!(state.cache.get("text/plain"), Some(&b"a\n".to_vec()));
}

#[test]
fn unwanted_data_is_ignored() {
    let mut state = IngressState::new();
    state.pending = vec![request(1, "text/plain")];
    let ignored = |action: DataResponseAction| matches!(action, DataResponseAction::Ignore);
    assert!(ignored(state.handle_rdp_data_response(vec![1, 2], false, true, true)));
    assert!(ignored(state.handle_rdp_data_response(vec![1, 2], true, false, true)));
    assert_eq!(state.pending.len(), 1);
    state.pending.clear();
    assert!(ignored(state.handle_rdp_data_response(vec![1, 2], true, true, true)));
}

#[test]
fn fetched_text_is_provided() {
    let mut state = IngressState::new();
    state.pending = vec![
        request(EAGER_FETCH_SERIAL, "text/plain"),
        request(EAGER_FETCH_SERIAL, "text/plain"),
    ];
    match state.handle_rdp_data_response(vec![0x61, 0, 0, 0], true, true, true) {
        DataResponseAction::ProvideText(data) => assert_eq!(data, b"a".to_vec()),
        other => panic!("unexpected {other:?}"),
    }
    let action = state.handle_rdp_data_response(vec![0x61], true, true, true);
    assert!(matches!(action, DataResponseAction::Ignore));
    assert!(state.pending.is_empty());
}

/// A file list with one file.
fn file_list(name: &str, size: u64) -> Vec<u8> {
    let mut data = vec![0u8; 4 + 592];
    data[0] = 1;
    data[4..8].copy_from_slice(&0x40u32.to_le_bytes());
    data[68..72].copy_from_slice(&((size >> 32) as u32).to_le_bytes());
    data[72..76].copy_from_slice(&(size as u32).to_le_bytes());
    for (i, unit) in name.encode_utf16().enumerate() {
        data[76 + 2 * i..78 + 2 * i].copy_from_slice(&unit.to_le_bytes());
    }
    data
}

#[test]
fn file_lists_are_prepared() {
    let mut state = IngressState::new();
    state.pending = vec![request(4, "text/uri-list")];
    let action =
        state.handle_rdp_data_response(file_list("-x", (1 << 32) + 5), true, true, true);
    match action {
        DataResponseAction::PrepareFiles { serial, mime, descriptors } => {
            assert_eq!(serial, 4);
            assert_eq!(mime, "text/uri-list");
            assert_eq!(descriptors.len(), 1);
            assert_eq!(descriptors[0].filename, "_-x");
            assert_eq!(descriptors[0].size, (1 << 32) + 5);
            assert_eq!(descriptors[0].clip_data_id, 1);
        }
        other => panic!("unexpected {other:?}"),
    }
    state.pending = vec![request(4, "text/uri-list")];
    match state.handle_rdp_data_response(file_list("x", 1), true, true, false) {
        DataResponseAction::Cancel(done) => assert_eq!(done, cancelled(4, "text/uri-list")),
        other => panic!("unexpected {other:?}"),
    }
    // What is no file list is delivered as it is.
    state.pending = vec![request(4, "text/uri-list")];
    match state.handle_rdp_data_response(vec![1, 2, 3], true, true, true) {
        DataResponseAction::Deliver(done) => {
            assert_eq!(done, delivered(4, "text/uri-list", &[1, 2, 3]));
        }
        other => panic!("unexpected {other:?}"),
    }
}

#[test]
fn one_file_list_answers_all_pastes() {
    let mut state = IngressState::new();
    state.pending = vec![
        request(5, "x-special/gnome-copied-files"),
        request(4, "text/uri-list"),
        request(6, "text/plain"),
        request(7, "text/uri-list"),
    ];
    let ready = PreparedFiles::Ready { uri_list: vec![1], gnome_list: vec![2] };
    let first = IngressState::files_prepared(4, &"text/uri-list".to_string(), &ready);
    assert_eq!(first, Some(delivered(4, "text/uri-list", &[1])));
    let others = state.files_delivered(4, vec![1], vec![2]);
    assert_eq!(
        others,
        vec![
            delivered(5, "x-special/gnome-copied-files", &[2]),
            cancelled(6, "text/plain"),
            delivered(7, "text/uri-list", &[1]),
        ]
    );
    assert!(state.pending.is_empty());
    assert_eq!(state.cache.get("text/uri-list"), Some(&vec![1]));
    let mime = "text/uri-list".to_string();
    assert_eq!(IngressState::files_prepared(4, &mime, &PreparedFiles::Pending), None);
    assert_eq!(
        IngressState::files_prepared(4, &mime, &PreparedFiles::Failed),
        Some(cancelled(4, "text/uri-list"))
    );
}

#[test]
fn bad_images_fail() {
    let mut state = IngressState::new();
    state.pending =
        vec![request(1, "image/png"), request(2, "image/png"), request(3, "image/jpeg")];
    let action = state.handle_rdp_data_response(vec![1, 2], true, true, true);
    assert!(matches!(action, DataResponseAction::Fail(ClipboardError::TooSmallForBitmap)));
    assert!(!state.would_read_blank_mask(&[9, 0, 0, 0]));
    let action = state.handle_rdp_data_response(vec![9, 0, 0, 0], true, true, true);
    assert!(matches!(action, DataResponseAction::Fail(ClipboardError::Core(_))));
    let mut wide = vec![0u8; 44];
    wide[0] = 40;
    wide[4..8].copy_from_slice(&0x5555_5555u32.to_le_bytes());
    wide[8] = 1;
    wide[14] = 24;
    let action = state.handle_rdp_data_response(wide, true, true, true);
    assert!(matches!(action, DataResponseAction::Fail(ClipboardError::RowTooLong)));
}

#[test]
fn failed_deliveries_and_errors_leave_nothing_waiting() {
    let mut state = IngressState::new();
    state.pending = vec![request(1, "a"), request(2, "b"), request(1, "c")];
    state.delivery_failed(1);
    assert_eq!(state.pending, vec![request(2, "b")]);
    state.pending.push(request(3, "d"));
    assert_eq!(
        state.handle_rdp_data_error(true),
        vec![cancelled(2, "b"), cancelled(3, "d")]
    );
    assert!(state.pending.is_empty());
    state.pending.push(request(3, "d"));
    assert!(state.handle_rdp_data_error(false).is_empty());
    assert!(state.pending.is_empty());
}

#[test]
fn the_cache_keeps_the_latest_data() {
    let mut cache = TransferCache::new();
    assert_eq!(cache.get("a"), None);
    cache.insert("a".to_string(), vec![1]);
    cache.insert("b".to_string(), vec![2]);
    cache.insert("a".to_string(), vec![3]);
    assert_eq!(cache.get("a"), Some(&vec![3]));
    assert_eq!(cache.get("b"), Some(&vec![2]));
}
