use lud::io::{Action, Event, Failure, FileKind, Metadata, Outcome, Progress, Walked};
use lud::packet::{File, Packet};
use lud::server::{handle_connection, handle_download, handle_list, handle_remove, handle_upload};
use lud::server::{begin_download, begin_list, begin_remove, begin_upload, guard_upload};
use lud::server::{list_entry, list_files, prepare_upload};
use lud::server::{DownloadState, ListState, RemoveState, ServerState, Upload};
use lud::server::{UploadState, DOWNLOAD_CHUNK};

const ROOT: &str = "/srv/store";

fn refused(message: &str) -> (ServerState, Action) {
    (ServerState::Replying(Outcome::Failure), Action::Send(Packet::Error(message.to_string())))
}

fn accepted() -> (ServerState, Action) {
    (ServerState::Replying(Outcome::Success), Action::Send(Packet::Ack))
}

fn abandoned() -> (ServerState, Action) {
    (ServerState::Closed(Outcome::Failure), Action::Close)
}

fn failed() -> Event {
    Event::Failed(Failure::Other)
}

fn file(size: u64, mode: u32) -> Event {
    Event::Metadata(Metadata { kind: FileKind::File, size, mode })
}

fn upload(force: bool) -> Upload {
    Upload { full: "/srv/store/sub/a.bin".to_string(), size: 10, mode: 0o640, force }
}

#[test]
fn ping_is_answered() {
    assert_eq!(handle_connection(ROOT, ServerState::AwaitRequest, Event::Received(Packet::Ping)), accepted());
}

#[test]
fn unreadable_request_is_reported() {
    assert_eq!(
        handle_connection(ROOT, ServerState::AwaitRequest, Event::ReceiveFailed),
        refused("Failed to read packet")
    );
}

#[test]
fn packets_that_are_no_request_are_refused_by_name() {
    let cases = vec![
        (Packet::Ack, "Unsupported packet `Ok`"),
        (Packet::Error("x".to_string()), "Unsupported packet `Error`"),
        (Packet::DownloadChunk(vec![1]), "Unsupported packet `DownloadChunk`"),
        (Packet::DownloadEnd, "Unsupported packet `DownloadEnd`"),
        (Packet::UploadChunk(vec![1]), "Unsupported packet `UploadChunk`"),
        (Packet::UploadEnd, "Unsupported packet `UploadEnd`"),
    ];
    for (packet, message) in cases {
        assert_eq!(
            handle_connection(ROOT, ServerState::AwaitRequest, Event::Received(packet)),
            refused(message)
        );
    }
}

#[test]
fn events_that_answer_nothing_end_the_connection() {
    assert_eq!(handle_connection(ROOT, ServerState::AwaitRequest, Event::Sent), abandoned());
    assert_eq!(handle_connection(ROOT, ServerState::AwaitRequest, Event::Done), abandoned());
    assert_eq!(
        handle_connection(ROOT, ServerState::Download(DownloadState::Read), Event::Sent),
        abandoned()
    );
    assert_eq!(
        handle_connection(ROOT, ServerState::Upload(UploadState::Requested), Event::Done),
        abandoned()
    );
    assert_eq!(
        handle_connection(ROOT, ServerState::Remove(RemoveState::File), Event::Exists(true)),
        abandoned()
    );
    assert_eq!(
        handle_connection(ROOT, ServerState::List(ListState::Send), Event::Done),
        abandoned()
    );
}

#[test]
fn terminal_packet_is_followed_by_the_close() {
    for outcome in [Outcome::Success, Outcome::Failure] {
        for event in [Event::Sent, Event::SendFailed, Event::Done] {
            assert_eq!(
                handle_connection(ROOT, ServerState::Replying(outcome), event.clone()),
                (ServerState::Closed(outcome), Action::Close)
            );
            assert_eq!(
                handle_connection(ROOT, ServerState::Closed(outcome), event),
                (ServerState::Closed(outcome), Action::Close)
            );
        }
    }
}

#[test]
fn requests_are_dispatched_to_their_handlers() {
    let request = Event::Received(Packet::DownloadStart("a".to_string(), 0, 0));
    assert_eq!(
        handle_connection(ROOT, ServerState::AwaitRequest, request.clone()),
        handle_download(ROOT, DownloadState::Requested, request)
    );
    let request = Event::Received(Packet::UploadStart("a".to_string(), 1, 2, true));
    assert_eq!(
        handle_connection(ROOT, ServerState::AwaitRequest, request.clone()),
        handle_upload(ROOT, UploadState::Requested, request)
    );
    let request = Event::Received(Packet::List("a".to_string(), Vec::new()));
    assert_eq!(
        handle_connection(ROOT, ServerState::AwaitRequest, request.clone()),
        handle_list(ROOT, ListState::Requested, request)
    );
    let request = Event::Received(Packet::Remove("a".to_string(), true, true));
    assert_eq!(
        handle_connection(ROOT, ServerState::AwaitRequest, request.clone()),
        handle_remove(ROOT, RemoveState::Requested, request)
    );
}

#[test]
fn download_resolves_the_path_and_asks_for_metadata() {
    let request = Event::Received(Packet::DownloadStart("sub/a.bin".to_string(), 5, 6));
    assert_eq!(
        handle_download(ROOT, DownloadState::Requested, request),
        (
            ServerState::Download(DownloadState::Stat {
                path: "sub/a.bin".to_string(),
                full: "/srv/store/sub/a.bin".to_string(),
            }),
            Action::Stat("/srv/store/sub/a.bin".to_string())
        )
    );
}

#[test]
fn download_refuses_paths_that_escape() {
    for path in ["../x", "/etc/passwd", "a/../../b"] {
        let request = Event::Received(Packet::DownloadStart(path.to_string(), 0, 0));
        assert_eq!(handle_download(ROOT, DownloadState::Requested, request), refused("Invalid file path"));
    }
}

#[test]
fn download_announces_size_and_mode() {
    let state = DownloadState::Stat { path: "a".to_string(), full: "/srv/store/a".to_string() };
    assert_eq!(
        handle_download(ROOT, state.clone(), file(1234, 0o600)),
        (
            ServerState::Download(DownloadState::Announce { full: "/srv/store/a".to_string() }),
            Action::Send(Packet::DownloadStart("a".to_string(), 1234, 0o600))
        )
    );
    assert_eq!(handle_download(ROOT, state, failed()), refused("Failed to get file metadata"));
}

#[test]
fn download_streams_chunks_until_the_empty_read() {
    let announce = DownloadState::Announce { full: "/srv/store/a".to_string() };
    assert_eq!(
        handle_download(ROOT, announce.clone(), Event::Sent),
        (ServerState::Download(DownloadState::Open), Action::Open("/srv/store/a".to_string()))
    );
    assert_eq!(handle_download(ROOT, announce, Event::SendFailed), abandoned());
    assert_eq!(DOWNLOAD_CHUNK, 64 * 1024);
    assert_eq!(
        handle_download(ROOT, DownloadState::Open, Event::Done),
        (ServerState::Download(DownloadState::Read), Action::Read(65536))
    );
    assert_eq!(handle_download(ROOT, DownloadState::Open, failed()), refused("Failed to open file"));
    assert_eq!(
        handle_download(ROOT, DownloadState::Read, Event::Data(vec![1, 2, 3])),
        (
            ServerState::Download(DownloadState::Chunk),
            Action::Send(Packet::DownloadChunk(vec![1, 2, 3]))
        )
    );
    assert_eq!(handle_download(ROOT, DownloadState::Read, failed()), refused("Failed to read file"));
    assert_eq!(
        handle_download(ROOT, DownloadState::Chunk, Event::Sent),
        (ServerState::Download(DownloadState::Read), Action::Read(65536))
    );
    assert_eq!(handle_download(ROOT, DownloadState::Chunk, Event::SendFailed), abandoned());
    assert_eq!(
        handle_download(ROOT, DownloadState::Read, Event::Data(Vec::new())),
        (ServerState::Download(DownloadState::End), Action::Send(Packet::DownloadEnd))
    );
    assert_eq!(handle_download(ROOT, DownloadState::End, Event::Sent), accepted());
    assert_eq!(handle_download(ROOT, DownloadState::End, Event::SendFailed), abandoned());
}

#[test]
fn upload_invites_the_body() {
    let request = Event::Received(Packet::UploadStart("sub/a.bin".to_string(), 10, 0o640, false));
    assert_eq!(
        handle_upload(ROOT, UploadState::Requested, request),
        (ServerState::Upload(UploadState::Ready(upload(false))), Action::Send(Packet::Ack))
    );
    let request = Event::Received(Packet::UploadStart("../a.bin".to_string(), 10, 0o640, true));
    assert_eq!(handle_upload(ROOT, UploadState::Requested, request), refused("Invalid file path"));
    assert_eq!(handle_upload(ROOT, UploadState::Ready(upload(false)), Event::SendFailed), abandoned());
}

#[test]
fn upload_creates_the_parent_directory() {
    assert_eq!(
        handle_upload(ROOT, UploadState::Ready(upload(false)), Event::Sent),
        (
            ServerState::Upload(UploadState::Dirs(upload(false))),
            Action::CreateDirs("/srv/store/sub".to_string())
        )
    );
    assert_eq!(
        handle_upload(ROOT, UploadState::Dirs(upload(false)), failed()),
        refused("Failed to create directories")
    );
}

#[test]
fn upload_without_a_parent_goes_on_to_the_target() {
    let rootless = Upload { full: "/".to_string(), size: 1, mode: 0, force: true };
    assert_eq!(
        handle_upload(ROOT, UploadState::Ready(rootless.clone()), Event::Sent),
        (ServerState::Upload(UploadState::Create(rootless)), Action::Create("/".to_string()))
    );
}

#[test]
fn upload_looks_for_the_target_unless_forced() {
    assert_eq!(
        handle_upload(ROOT, UploadState::Dirs(upload(false)), Event::Done),
        (
            ServerState::Upload(UploadState::Probe(upload(false))),
            Action::Exists("/srv/store/sub/a.bin".to_string())
        )
    );
    assert_eq!(
        handle_upload(ROOT, UploadState::Dirs(upload(true)), Event::Done),
        (
            ServerState::Upload(UploadState::Create(upload(true))),
            Action::Create("/srv/store/sub/a.bin".to_string())
        )
    );
    assert_eq!(
        handle_upload(ROOT, UploadState::Probe(upload(false)), Event::Exists(true)),
        refused("File already exists")
    );
    for event in [Event::Exists(false), failed()] {
        assert_eq!(
            handle_upload(ROOT, UploadState::Probe(upload(false)), event),
            (
                ServerState::Upload(UploadState::Create(upload(false))),
                Action::Create("/srv/store/sub/a.bin".to_string())
            )
        );
    }
}

#[test]
fn upload_creates_the_target_with_its_mode() {
    assert_eq!(
        handle_upload(ROOT, UploadState::Create(upload(false)), Event::Done),
        (ServerState::Upload(UploadState::Mode(upload(false))), Action::SetMode(0o640))
    );
    assert_eq!(
        handle_upload(ROOT, UploadState::Create(upload(false)), failed()),
        refused("Failed to create file")
    );
    assert_eq!(
        handle_upload(ROOT, UploadState::Mode(upload(false)), Event::Done),
        (
            ServerState::Upload(UploadState::Receive(Progress {
                size: 10,
                received: 0,
                exceeded: false
            })),
            Action::Receive
        )
    );
    assert_eq!(
        handle_upload(ROOT, UploadState::Mode(upload(false)), failed()),
        refused("Failed to set file permissions")
    );
}

#[test]
fn upload_writes_and_counts_chunks() {
    let progress = Progress { size: 10, received: 4, exceeded: false };
    assert_eq!(
        handle_upload(
            ROOT,
            UploadState::Receive(progress),
            Event::Received(Packet::UploadChunk(vec![1, 2, 3]))
        ),
        (
            ServerState::Upload(UploadState::Write(Progress {
                size: 10,
                received: 7,
                exceeded: false
            })),
            Action::Write(vec![1, 2, 3])
        )
    );
    assert_eq!(
        handle_upload(ROOT, UploadState::Write(progress), Event::Done),
        (ServerState::Upload(UploadState::Receive(progress)), Action::Receive)
    );
    assert_eq!(
        handle_upload(ROOT, UploadState::Write(progress), failed()),
        refused("Failed to write file chunk")
    );
}

#[test]
fn upload_notes_chunks_beyond_the_announced_size() {
    let progress = Progress { size: 10, received: 8, exceeded: false };
    let (state, action) = handle_upload(
        ROOT,
        UploadState::Receive(progress),
        Event::Received(Packet::UploadChunk(vec![1, 2, 3])),
    );
    let beyond = Progress { size: 10, received: 8, exceeded: true };
    assert_eq!(state, ServerState::Upload(UploadState::Write(beyond)));
    assert_eq!(action, Action::Write(vec![1, 2, 3]));
    assert_eq!(
        handle_upload(ROOT, UploadState::Receive(beyond), Event::Received(Packet::UploadEnd)),
        refused("File size mismatch")
    );
}

#[test]
fn upload_end_checks_the_size() {
    let complete = Progress { size: 10, received: 10, exceeded: false };
    let short = Progress { size: 10, received: 9, exceeded: false };
    let empty = Progress { size: 0, received: 0, exceeded: false };
    let end = Event::Received(Packet::UploadEnd);
    assert_eq!(handle_upload(ROOT, UploadState::Receive(complete), end.clone()), accepted());
    assert_eq!(handle_upload(ROOT, UploadState::Receive(empty), end.clone()), accepted());
    assert_eq!(handle_upload(ROOT, UploadState::Receive(short), end), refused("File size mismatch"));
}

#[test]
fn upload_refuses_other_packets_in_the_body() {
    let progress = Progress { size: 10, received: 0, exceeded: false };
    for packet in [Packet::Ping, Packet::DownloadChunk(vec![1]), Packet::Ack] {
        assert_eq!(
            handle_upload(ROOT, UploadState::Receive(progress), Event::Received(packet)),
            refused("Unexpected packet during upload")
        );
    }
    assert_eq!(
        handle_upload(ROOT, UploadState::Receive(progress), Event::ReceiveFailed),
        refused("Failed to read upload packet")
    );
}

#[test]
fn progress_counts_exactly_up_to_the_size() {
    let start = Progress::start(5);
    assert_eq!(start, Progress { size: 5, received: 0, exceeded: false });
    assert!(!start.complete());
    let five = start.after(2).after(3);
    assert_eq!(five, Progress { size: 5, received: 5, exceeded: false });
    assert!(five.complete());
    let more = five.after(1);
    assert_eq!(more, Progress { size: 5, received: 5, exceeded: true });
    assert!(!more.complete());
    assert_eq!(more.after(0), more);
    assert_eq!(five.after(0), five);
    let once = Progress::start(u64::MAX).after(usize::MAX);
    assert_eq!(once, Progress { size: u64::MAX, received: usize::MAX as u64, exceeded: false });
    let twice = once.after(usize::MAX);
    let total = 2 * (usize::MAX as u128);
    assert_eq!(twice.exceeded, total > u64::MAX as u128);
}

#[test]
fn remove_looks_for_the_target() {
    let request = Event::Received(Packet::Remove("old".to_string(), true, false));
    assert_eq!(
        handle_remove(ROOT, RemoveState::Requested, request),
        (
            ServerState::Remove(RemoveState::Check {
                full: "/srv/store/old".to_string(),
                force: true,
                recursive: false
            }),
            Action::Exists("/srv/store/old".to_string())
        )
    );
    let request = Event::Received(Packet::Remove("../old".to_string(), true, false));
    assert_eq!(handle_remove(ROOT, RemoveState::Requested, request), refused("Invalid path"));
}

#[test]
fn remove_of_a_missing_target_depends_on_force() {
    let check = |force| RemoveState::Check { full: "/srv/store/old".to_string(), force, recursive: false };
    assert_eq!(handle_remove(ROOT, check(true), Event::Exists(false)), accepted());
    assert_eq!(handle_remove(ROOT, check(false), Event::Exists(false)), refused("Path does not exist"));
    assert_eq!(handle_remove(ROOT, check(true), failed()), refused("Failed to check path existence"));
    assert_eq!(
        handle_remove(ROOT, check(true), Event::Exists(true)),
        (
            ServerState::Remove(RemoveState::Stat {
                full: "/srv/store/old".to_string(),
                recursive: false
            }),
            Action::Stat("/srv/store/old".to_string())
        )
    );
}

#[test]
fn remove_picks_the_removal_by_kind() {
    let stat = |recursive| RemoveState::Stat { full: "/srv/store/old".to_string(), recursive };
    let found = |kind| Event::Metadata(Metadata { kind, size: 0, mode: 0 });
    let target = "/srv/store/old".to_string();
    assert_eq!(
        handle_remove(ROOT, stat(false), found(FileKind::File)),
        (ServerState::Remove(RemoveState::File), Action::RemoveFile(target.clone()))
    );
    assert_eq!(
        handle_remove(ROOT, stat(true), found(FileKind::File)),
        (ServerState::Remove(RemoveState::File), Action::RemoveFile(target.clone()))
    );
    assert_eq!(
        handle_remove(ROOT, stat(true), found(FileKind::Dir)),
        (ServerState::Remove(RemoveState::Tree), Action::RemoveTree(target.clone()))
    );
    assert_eq!(
        handle_remove(ROOT, stat(false), found(FileKind::Dir)),
        (ServerState::Remove(RemoveState::Dir), Action::RemoveDir(target))
    );
    assert_eq!(handle_remove(ROOT, stat(false), found(FileKind::Other)), accepted());
    assert_eq!(handle_remove(ROOT, stat(false), failed()), refused("Failed to get path metadata"));
}

#[test]
fn remove_reports_how_the_removal_went() {
    for state in [RemoveState::File, RemoveState::Tree, RemoveState::Dir] {
        assert_eq!(handle_remove(ROOT, state, Event::Done), accepted());
    }
    assert_eq!(handle_remove(ROOT, RemoveState::File, failed()), refused("Failed to delete file"));
    assert_eq!(
        handle_remove(ROOT, RemoveState::File, Event::Failed(Failure::NotEmpty)),
        refused("Failed to delete file")
    );
    assert_eq!(
        handle_remove(ROOT, RemoveState::Tree, failed()),
        refused("Failed to delete directory recursively")
    );
    assert_eq!(
        handle_remove(ROOT, RemoveState::Dir, Event::Failed(Failure::NotEmpty)),
        refused("Directory not empty (use recursive flag)")
    );
    assert_eq!(handle_remove(ROOT, RemoveState::Dir, failed()), refused("Failed to delete directory"));
}

#[test]
fn list_walks_the_resolved_path() {
    let request = Event::Received(Packet::List("sub".to_string(), Vec::new()));
    assert_eq!(
        handle_list(ROOT, ListState::Requested, request),
        (
            ServerState::List(ListState::Walk { path: "sub".to_string() }),
            Action::Walk("/srv/store/sub".to_string())
        )
    );
    let request = Event::Received(Packet::List("./".to_string(), Vec::new()));
    assert_eq!(
        handle_list(ROOT, ListState::Requested, request),
        (
            ServerState::List(ListState::Walk { path: "./".to_string() }),
            Action::Walk("/srv/store".to_string())
        )
    );
    let request = Event::Received(Packet::List("/".to_string(), Vec::new()));
    assert_eq!(handle_list(ROOT, ListState::Requested, request), refused("Invalid path"));
}

#[test]
fn list_sends_the_files_then_the_acknowledgement() {
    let walked = vec![
        Walked { path: "/srv/store/sub".to_string(), is_dir: true, size: Some(4096) },
        Walked { path: "/srv/store/sub/a".to_string(), is_dir: false, size: Some(3) },
    ];
    assert_eq!(
        handle_list(ROOT, ListState::Walk { path: "sub".to_string() }, Event::Walked(walked)),
        (
            ServerState::List(ListState::Send),
            Action::Send(Packet::List(
                "sub".to_string(),
                vec![File { path: "sub/a".to_string(), size: 3 }]
            ))
        )
    );
    assert_eq!(handle_list(ROOT, ListState::Send, Event::Sent), accepted());
    assert_eq!(handle_list(ROOT, ListState::Send, Event::SendFailed), abandoned());
}

#[test]
fn list_files_skips_directories_unreadable_and_foreign_entries() {
    let walked = vec![
        Walked { path: "/srv/store".to_string(), is_dir: true, size: Some(0) },
        Walked { path: "/srv/store/b".to_string(), is_dir: false, size: Some(2) },
        Walked { path: "/srv/store/locked".to_string(), is_dir: false, size: None },
        Walked { path: "/elsewhere/c".to_string(), is_dir: false, size: Some(9) },
        Walked { path: "/srv/storehouse/d".to_string(), is_dir: false, size: Some(9) },
        Walked { path: "/srv/store/sub/a".to_string(), is_dir: false, size: Some(1) },
    ];
    assert_eq!(
        list_files(ROOT, &walked),
        vec![
            File { path: "b".to_string(), size: 2 },
            File { path: "sub/a".to_string(), size: 1 },
        ]
    );
    assert_eq!(list_files(ROOT, &Vec::new()), Vec::new());
}

#[test]
fn upload_writes_no_more_than_arrives() {
    let mut state = ServerState::Upload(UploadState::Receive(Progress::start(6)));
    let mut written = 0;
    let mut arrived = 0;
    for len in [1usize, 2, 3] {
        arrived += len;
        let (next, action) =
            handle_connection(ROOT, state, Event::Received(Packet::UploadChunk(vec![0; len])));
        assert_eq!(action, Action::Write(vec![0; len]));
        written += len;
        assert!(written <= arrived);
        let (next, action) = handle_connection(ROOT, next, Event::Done);
        assert_eq!(action, Action::Receive);
        state = next;
    }
    assert_eq!(handle_connection(ROOT, state, Event::Received(Packet::UploadEnd)), accepted());
    assert_eq!(written, 6);
}

#[test]
fn requests_begin_with_the_resolved_path() {
    assert_eq!(
        begin_download("a".to_string(), Some("/r/a".to_string())),
        (
            ServerState::Download(DownloadState::Stat {
                path: "a".to_string(),
                full: "/r/a".to_string()
            }),
            Action::Stat("/r/a".to_string())
        )
    );
    assert_eq!(
        begin_upload(5, 0o600, true, Some("/r/a".to_string())),
        (
            ServerState::Upload(UploadState::Ready(Upload {
                full: "/r/a".to_string(),
                size: 5,
                mode: 0o600,
                force: true
            })),
            Action::Send(Packet::Ack)
        )
    );
    assert_eq!(
        begin_remove(false, true, Some("/r/a".to_string())),
        (
            ServerState::Remove(RemoveState::Check {
                full: "/r/a".to_string(),
                force: false,
                recursive: true
            }),
            Action::Exists("/r/a".to_string())
        )
    );
    assert_eq!(
        begin_list("a".to_string(), Some("/r/a".to_string())),
        (ServerState::List(ListState::Walk { path: "a".to_string() }), Action::Walk("/r/a".to_string()))
    );
}

#[test]
fn requests_whose_path_does_not_resolve_are_refused() {
    assert_eq!(begin_download("a".to_string(), None), refused("Invalid file path"));
    assert_eq!(begin_upload(5, 0o600, true, None), refused("Invalid file path"));
    assert_eq!(begin_remove(false, true, None), refused("Invalid path"));
    assert_eq!(begin_list("a".to_string(), None), refused("Invalid path"));
}

#[test]
fn upload_is_prepared_by_the_parent_it_is_given() {
    assert_eq!(
        prepare_upload(upload(false), Some("/any/dir".to_string())),
        (ServerState::Upload(UploadState::Dirs(upload(false))), Action::CreateDirs("/any/dir".to_string()))
    );
    assert_eq!(prepare_upload(upload(false), None), guard_upload(upload(false)));
    assert_eq!(
        guard_upload(upload(false)),
        (
            ServerState::Upload(UploadState::Probe(upload(false))),
            Action::Exists("/srv/store/sub/a.bin".to_string())
        )
    );
    assert_eq!(
        guard_upload(upload(true)),
        (
            ServerState::Upload(UploadState::Create(upload(true))),
            Action::Create("/srv/store/sub/a.bin".to_string())
        )
    );
}

#[test]
fn entries_are_listed_by_their_relative_path() {
    let walked = |is_dir, size| Walked { path: "/r/sub/a".to_string(), is_dir, size };
    assert_eq!(
        list_entry(&walked(false, Some(7)), Some("sub/a".to_string())),
        Some(File { path: "sub/a".to_string(), size: 7 })
    );
    assert_eq!(list_entry(&walked(true, Some(7)), Some("sub/a".to_string())), None);
    assert_eq!(list_entry(&walked(false, None), Some("sub/a".to_string())), None);
    assert_eq!(list_entry(&walked(false, Some(7)), None), None);
}
