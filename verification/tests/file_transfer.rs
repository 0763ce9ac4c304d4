use lamco_rdp_server::clipboard::file_transfer::contents::{
    reply_with, ContentsRequest, OutgoingAction, OutgoingReply, UnknownFileIndex,
};
use lamco_rdp_server::clipboard::file_transfer::descriptors::{
    descriptors_from_list, outgoing_files, OutgoingFileInfo, ProbedFile, TransferFileDescriptor,
};
use lamco_rdp_server::clipboard::file_transfer::fuse_backend::{
    FuseFileTransfer, PrepareFailure, ReadAction, ReadReply,
};
use lamco_rdp_server::clipboard::file_transfer::mounts::{
    mount_candidates, pid_unique_mount_point, runtime_dir, stale, MountCandidate,
};
use lamco_rdp_server::clipboard::file_transfer::staging_backend::{
    AfterWrite, FileTransferEvent, StagingFileTransfer, MAX_CHUNK_SIZE,
};

fn descriptor(filename: &str, size: u64, file_index: u32) -> TransferFileDescriptor {
    TransferFileDescriptor { filename: filename.to_string(), size, file_index, clip_data_id: 1 }
}

#[test]
fn test_pid_unique_mount_point_contains_pid() {
    let pid = 4242;
    let path = pid_unique_mount_point(&runtime_dir(None, 1000), pid);
    assert!(
        path.contains(&format!("lamco-clipboard-fuse-{pid}")),
        "Mount point should contain PID: {path:?}"
    );
}

#[test]
fn test_pid_unique_mount_point_in_runtime_dir() {
    let path_str = pid_unique_mount_point(&runtime_dir(None, 1000), 4242);
    assert!(
        path_str.contains("/run/user/") || path_str.contains("XDG_RUNTIME"),
        "Mount point should be in runtime dir: {path_str:?}"
    );
    assert_eq!(path_str, "/run/user/1000/lamco-clipboard-fuse-4242");
    assert_eq!(
        pid_unique_mount_point(&runtime_dir(Some("/run/x/"), 1000), 7),
        "/run/x/lamco-clipboard-fuse-7"
    );
}

#[test]
fn test_fuse_backend_new() {
    let backend = FuseFileTransfer::new("/run/user/1000/lamco-clipboard-fuse-1".to_string());
    assert_eq!(backend.name(), "FUSE On-Demand");
    assert!(!backend.requires_eager_download());
}

#[test]
fn mounts_of_other_processes_are_found() {
    let table = "36 35 98:0 / /run/user/1000/lamco-clipboard-fuse-77 rw - fuse x rw\n\
                 37 35 98:0 / /run/user/1000/lamco-clipboard-fuse-4242 rw - fuse x rw\n\
                 38 35 98:0 / /elsewhere/lamco-clipboard-fuse-5 rw - fuse x rw\n\
                 39 35 98:0 / /run/user/1000/doc rw - fuse x rw\n\
                 40 35 98:0 / /run/user/1000/lamco-clipboard-fuse-abc rw\n\
                 short line\n\
                 41 35 98:0 / /run/user/1000/lamco-clipboard-fuse-99999999999 rw\n\
                 42\t35 98:0  / /run/user/1000/lamco-clipboard-fuse-8\r\n";
    assert_eq!(
        mount_candidates(table, "/run/user/1000", 4242),
        vec![
            MountCandidate {
                mount_point: "/run/user/1000/lamco-clipboard-fuse-77".to_string(),
                pid: 77,
            },
            MountCandidate {
                mount_point: "/run/user/1000/lamco-clipboard-fuse-8".to_string(),
                pid: 8,
            },
        ]
    );
    assert!(mount_candidates("", "/run/user/1000", 4242).is_empty());
}

#[test]
fn mounts_of_live_servers_are_kept() {
    assert!(stale(false, None));
    assert!(stale(true, Some("bash\n")));
    assert!(!stale(true, Some("lamco-rdp-serve\n")));
    assert!(!stale(true, Some("my-rdp-server\n")));
    assert!(!stale(true, None));
}

#[test]
fn test_staging_new() {
    let backend = StagingFileTransfer::new("/tmp/test-staging".to_string());
    assert_eq!(backend.name(), "Staging Download");
    assert!(backend.requires_eager_download());
}

#[test]
fn a_missing_directory_is_reported() {
    let backend = StagingFileTransfer::new("/dl".to_string());
    assert_eq!(backend.health_check(true), Ok(()));
    assert_eq!(
        backend.health_check(false),
        Err("Download directory does not exist: /dl".to_string())
    );
}

#[test]
fn test_allocate_stream_id_increments() {
    let mut backend = StagingFileTransfer::new("/tmp/test".to_string());
    let id1 = backend.allocate_stream_id();
    let id2 = backend.allocate_stream_id();
    assert_eq!(id2, id1 + 1);
}

#[test]
fn a_paste_of_two_files_completes_once() {
    let mut backend = StagingFileTransfer::new("/dl".to_string());
    backend.begin_transfer(9);
    let first = descriptor("a.txt", 3, 0);
    let second = descriptor("b.txt", 2, 1);

    let planned = backend.plan_file(&first);
    assert_eq!(planned.stream_id, 1);
    assert_eq!(planned.temp_path, "/dl/.a.txt.1.tmp");
    let request = backend.expect_file(&first, planned);
    assert_eq!(
        request,
        ContentsRequest { stream_id: 1, index: 0, position: 0, requested_size: 3 }
    );
    let planned = backend.plan_file(&second);
    backend.expect_file(&second, planned);

    assert_eq!(backend.incoming[0].temp_path, "/dl/.a.txt.1.tmp");
    assert_eq!(backend.received(5), None);
    assert!(matches!(
        backend.data_written(1, 2),
        AfterWrite::Request(ContentsRequest { stream_id: 1, index: 0, position: 2, requested_size: 1 })
    ));
    assert_eq!(backend.received(1), Some(2));
    assert!(matches!(backend.data_written(1, 1), AfterWrite::Flush));
    let done = backend.file_flushed(1).expect("a complete file");
    assert_eq!(done.final_path, "/dl/a.txt");
    assert!(done.all.is_none());
    assert!(backend.file_in_place(done).is_none());

    assert!(matches!(backend.data_written(2, 5), AfterWrite::Flush));
    let done = backend.file_flushed(2).expect("a complete file");
    match backend.file_in_place(done) {
        Some(FileTransferEvent::FilesReady { paths, portal_serial }) => {
            assert_eq!(paths, vec!["/dl/a.txt".to_string(), "/dl/b.txt".to_string()]);
            assert_eq!(portal_serial, 9);
        }
        other => panic!("unexpected {other:?}"),
    }
    assert!(backend.incoming.is_empty());
    assert!(backend.completed.is_empty());
    assert_eq!(backend.portal_serial, None);
    assert!(backend.file_flushed(2).is_none());
}

#[test]
fn large_files_come_in_chunks() {
    let mut backend = StagingFileTransfer::new("/dl".to_string());
    backend.begin_transfer(1);
    let size = 2 * MAX_CHUNK_SIZE + 10;
    let file = descriptor("big", size, 3_000_000_000);
    let planned = backend.plan_file(&file);
    let mut request = backend.expect_file(&file, planned);
    assert_eq!(request.index, 3_000_000_000u32 as i32);
    let mut rounds = 1;
    loop {
        match backend.data_written(1, request.requested_size as u64) {
            AfterWrite::Request(next) => {
                assert_eq!(next.position, request.position + request.requested_size as u64);
                request = next;
                rounds += 1;
            }
            AfterWrite::Flush => break,
            AfterWrite::Wait => panic!("the size is known"),
        }
    }
    assert_eq!(rounds, 3);
    assert_eq!(request.requested_size, 10);
}

#[test]
fn files_of_unknown_size_wait() {
    let mut backend = StagingFileTransfer::new("/dl".to_string());
    let file = descriptor("x", 0, 0);
    let planned = backend.plan_file(&file);
    let request = backend.expect_file(&file, planned);
    assert_eq!(request.requested_size as u64, MAX_CHUNK_SIZE);
    assert!(matches!(backend.data_written(1, 10), AfterWrite::Wait));
    assert!(matches!(backend.data_written(77, 10), AfterWrite::Wait));
}

#[test]
fn a_failed_stream_fails_the_paste_once() {
    let mut backend = StagingFileTransfer::new("/dl".to_string());
    backend.begin_transfer(4);
    let file = descriptor("x", 5, 0);
    let planned = backend.plan_file(&file);
    backend.expect_file(&file, planned);
    let failed = backend.stream_failed(1);
    assert_eq!(failed.temp_path, Some("/dl/.x.1.tmp".to_string()));
    match failed.event {
        Some(FileTransferEvent::TransferFailed { reason, portal_serial }) => {
            assert_eq!(reason, "RDP error on stream 1");
            assert_eq!(portal_serial, 4);
        }
        other => panic!("unexpected {other:?}"),
    }
    let again = backend.stream_failed(1);
    assert_eq!(again.temp_path, None);
    assert!(again.event.is_none());
}

#[test]
fn a_failed_paste_is_never_ready() {
    let mut backend = StagingFileTransfer::new("/dl".to_string());
    backend.begin_transfer(4);
    for name in ["a", "b", "c"] {
        let file = descriptor(name, 5, 0);
        let planned = backend.plan_file(&file);
        backend.expect_file(&file, planned);
    }
    let mut events = Vec::new();
    let mut deliver = |backend: &mut StagingFileTransfer, stream_id: u32, count: Option<u64>| {
        let event = match count {
            None => backend.stream_failed(stream_id).event,
            Some(count) => match backend.data_written(stream_id, count) {
                AfterWrite::Flush => {
                    let done = backend.file_flushed(stream_id).expect("a complete file");
                    backend.file_in_place(done)
                }
                _ => None,
            },
        };
        events.extend(event);
    };
    deliver(&mut backend, 2, Some(3));
    deliver(&mut backend, 1, Some(5));
    deliver(&mut backend, 3, None);
    deliver(&mut backend, 2, Some(2));
    deliver(&mut backend, 1, Some(5));
    deliver(&mut backend, 2, None);
    assert!(backend.incoming.is_empty());
    assert_eq!(events.len(), 1);
    assert!(matches!(events[0], FileTransferEvent::TransferFailed { portal_serial: 4, .. }));
}

#[test]
fn shutting_down_names_the_temporary_files() {
    let mut backend = StagingFileTransfer::new("/dl".to_string());
    for name in ["a", "b"] {
        let file = descriptor(name, 5, 0);
        let planned = backend.plan_file(&file);
        backend.expect_file(&file, planned);
    }
    assert_eq!(
        backend.shutdown(),
        vec!["/dl/.a.1.tmp".to_string(), "/dl/.b.2.tmp".to_string()]
    );
    assert!(backend.incoming.is_empty());
}

#[test]
fn stream_numbers_wrap_around() {
    let mut backend = StagingFileTransfer::new("/dl".to_string());
    backend.next_stream_id = u32::MAX;
    assert_eq!(backend.allocate_stream_id(), u32::MAX);
    assert_eq!(backend.allocate_stream_id(), 0);
    let mut fuse = FuseFileTransfer::new("/m".to_string());
    assert_eq!(fuse.allocate_stream_id(), 1);
    assert_eq!(fuse.allocate_stream_id(), 2);
}

fn outgoing() -> Vec<OutgoingFileInfo> {
    vec![OutgoingFileInfo {
        list_index: 0,
        path: "/home/x".to_string(),
        size: 12,
        filename: "x".to_string(),
    }]
}

#[test]
fn offered_files_are_served() {
    let mut backend = StagingFileTransfer::new("/dl".to_string());
    backend.set_outgoing_files(outgoing());
    assert!(matches!(backend.handle_outgoing_request(0, true), Ok(OutgoingAction::Size(12))));
    match backend.handle_outgoing_request(0, false) {
        Ok(OutgoingAction::Read { path }) => assert_eq!(path, "/home/x"),
        other => panic!("unexpected {other:?}"),
    }
    let error = backend.handle_outgoing_request(7, true).unwrap_err();
    assert_eq!(error, UnknownFileIndex(7));
    assert_eq!(error.message(), "File index 7 not found");

    let mut fuse = FuseFileTransfer::new("/m".to_string());
    fuse.set_outgoing_files(outgoing());
    assert!(matches!(fuse.handle_outgoing_request(0, true), Ok(OutgoingAction::Size(12))));
    assert!(fuse.handle_outgoing_request(1, false).is_err());
    assert!(matches!(reply_with(None), OutgoingReply::Error));
    assert!(matches!(reply_with(Some(vec![1])), OutgoingReply::Data(data) if data == [1]));
}

#[test]
fn files_that_cannot_be_examined_are_left_out() {
    let probe = |path: &str, name: Option<&str>, size: Option<u64>| ProbedFile {
        path: path.to_string(),
        file_name: name.map(str::to_string),
        size,
    };
    let files = outgoing_files(&[
        probe("/a", Some("a"), Some(1)),
        probe("/gone", Some("gone"), None),
        probe("/..", None, Some(3)),
    ]);
    assert_eq!(files.len(), 2);
    assert_eq!(files[0].list_index, 0);
    assert_eq!(files[1].list_index, 2);
    assert_eq!(files[1].filename, "unknown");
    assert_eq!(files[1].size, 3);
}

/// A file list: names as UTF-16 units, sizes where they are known.
fn group_descriptor(files: &[(Vec<u16>, Option<u64>)]) -> Vec<u8> {
    let mut data = (files.len() as u32).to_le_bytes().to_vec();
    for (name, size) in files {
        let mut entry = vec![0u8; 592];
        if let Some(size) = size {
            entry[0] = 0x40;
            entry[64..68].copy_from_slice(&((size >> 32) as u32).to_le_bytes());
            entry[68..72].copy_from_slice(&(*size as u32).to_le_bytes());
        }
        for (i, unit) in name.iter().enumerate() {
            entry[72 + 2 * i..74 + 2 * i].copy_from_slice(&unit.to_le_bytes());
        }
        data.extend_from_slice(&entry);
    }
    data
}

fn units(text: &str) -> Vec<u16> {
    text.encode_utf16().collect()
}

#[test]
fn file_lists_give_names_and_sizes() {
    let mut cut = units("end");
    cut.push(0);
    cut.extend(units("junk"));
    let data = group_descriptor(&[
        (units("smile \u{1F600}.txt"), Some((7 << 32) + 9)),
        (cut, None),
        (units(&"n".repeat(260)), Some(1)),
    ]);
    let files = descriptors_from_list(&data, 6).expect("a list");
    assert_eq!(files.len(), 3);
    assert_eq!(files[0].filename, "smile \u{1F600}.txt");
    assert_eq!(files[0].size, (7 << 32) + 9);
    assert_eq!(files[1].filename, "end");
    assert_eq!(files[1].size, 0);
    assert_eq!(files[1].file_index, 1);
    assert_eq!(files[2].filename, "n".repeat(255));
    assert_eq!(files[2].clip_data_id, 6);
    // One name that is no text spoils the list.
    let data = group_descriptor(&[(units("good"), None), (vec![0xD800, 0x41], None)]);
    assert_eq!(descriptors_from_list(&data, 6), None);
}

#[test]
fn remote_names_become_plain() {
    let kept = |name: &str| {
        let data = group_descriptor(&[(units(name), None)]);
        descriptors_from_list(&data, 1).expect("a list")[0].filename.clone()
    };
    assert_eq!(kept("a/b\\c"), "a_b_c");
    assert_eq!(kept("../x"), ".._x");
    assert_eq!(kept("-rf"), "_-rf");
    assert_eq!(kept(""), "_unnamed_");
    assert_eq!(kept("."), "_unnamed_");
    assert_eq!(kept(".."), "_unnamed_");
    // The extension stays, also of a name that is too long.
    assert_eq!(kept(&format!("{}.txt", "b".repeat(256))), format!("{}.txt", "b".repeat(251)));
    assert_eq!(kept(&format!("{}.txt", "\u{E9}".repeat(255))), format!("{}.txt", "\u{E9}".repeat(251)));
    assert_eq!(kept(&format!("a.{}", "x".repeat(258))), format!("a.{}", "x".repeat(253)));
    assert_eq!(kept(&format!("a.{}", "x".repeat(252))), format!("a.{}", "x".repeat(252)));
}

#[test]
fn malformed_file_lists_are_refused() {
    assert!(descriptors_from_list(&[1, 0, 0], 1).is_none());
    assert!(descriptors_from_list(&[1, 0, 0, 0], 1).is_none());
    assert_eq!(descriptors_from_list(&[0, 0, 0, 0], 1), Some(Vec::new()));
}

#[test]
fn reads_are_answered_at_most_once() {
    let mut backend = FuseFileTransfer::new("/m".to_string());
    assert!(matches!(backend.file_read(3, 10, 20, false), ReadAction::NotConnected));
    match backend.file_read(3, 10, 20, true) {
        ReadAction::Request(request) => assert_eq!(
            request,
            ContentsRequest { stream_id: 3, index: 3, position: 10, requested_size: 20 }
        ),
        other => panic!("unexpected {other:?}"),
    }
    backend.file_read(4, 0, 1, true);
    assert!(matches!(
        backend.deliver_file_data(3, vec![9], false),
        Some(ReadReply::Data(data)) if data == [9]
    ));
    assert!(backend.deliver_file_data(3, vec![9], false).is_none());
    assert!(matches!(
        backend.deliver_file_data(4, Vec::new(), true),
        Some(ReadReply::RdpError)
    ));
}

#[test]
fn nothing_is_prepared_without_a_mount() {
    let mut backend = FuseFileTransfer::new("/m".to_string());
    assert_eq!(backend.begin_prepare(&[]), Err(PrepareFailure::NotMounted));
    assert_eq!(backend.health_check(), Err(PrepareFailure::NotMounted));
    backend.mounted = true;
    assert_eq!(backend.begin_prepare(&[]), Ok(1));
    let mut file = descriptor("x", 1, 0);
    file.clip_data_id = 8;
    assert_eq!(backend.begin_prepare(&[file]), Ok(8));
    assert_eq!(backend.health_check(), Ok(()));
    assert_eq!(
        FuseFileTransfer::finish_prepare(Vec::new()),
        Err(PrepareFailure::NoVirtualFiles)
    );
    assert_eq!(
        FuseFileTransfer::finish_prepare(vec!["/m/x".to_string()]),
        Ok(vec!["/m/x".to_string()])
    );
    assert_eq!(PrepareFailure::NotMounted.message(), "FUSE not mounted");
}
