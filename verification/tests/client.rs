use lud::client::{advance, advance_download, advance_query, advance_upload, choose_name};
use lud::client::default_name;
use lud::client::{download, download_to, list, name_from_stamp, ping, remove, upload, upload_as};
use lud::client::{ClientError, ClientState, DownloadState, FileStep, Query, QueryState, Reply};
use lud::client::UploadState;
use lud::io::{Action, Event, Failure, FileKind, Metadata, Progress};
use lud::packet::{File, Packet};

fn failure(error: ClientError) -> (ClientState, Action) {
    (ClientState::Failed(error), Action::Close)
}

fn success(reply: Reply) -> (ClientState, Action) {
    (ClientState::Finished(reply), Action::Close)
}

fn failed() -> Event {
    Event::Failed(Failure::Other)
}

fn text(value: &str) -> String {
    value.to_string()
}

#[test]
fn default_name_is_the_last_component() {
    assert_eq!(default_name("sub/a.bin", 0), Some(text("a.bin")));
    assert_eq!(default_name("a.bin", 0), Some(text("a.bin")));
    assert_eq!(default_name("/usr/bin/", 0), Some(text("bin")));
    assert_eq!(default_name("dir/file.txt/.", i64::MAX), Some(text("file.txt")));
}

#[test]
fn default_name_falls_back_to_the_moment() {
    assert_eq!(default_name("", 0), Some(text("1970-01-01T00-00-00-output")));
    assert_eq!(default_name("/", 1_706_745_599), Some(text("2024-01-31T23-59-59-output")));
    assert_eq!(default_name("..", 951_782_400), Some(text("2000-02-29T00-00-00-output")));
    assert_eq!(default_name("a/..", -1), Some(text("1969-12-31T23-59-59-output")));
}

#[test]
fn default_name_needs_a_moment_that_can_be_written() {
    assert_eq!(default_name("", i64::MAX), None);
    assert_eq!(default_name("..", i64::MIN), None);
}

#[test]
fn chosen_name_prefers_the_last_component() {
    assert_eq!(choose_name(Some(text("a.bin")), Some(text("stamp"))), Some(text("a.bin")));
    assert_eq!(choose_name(Some(text("a.bin")), None), Some(text("a.bin")));
    assert_eq!(choose_name(None, Some(text("stamp"))), Some(text("stamp-output")));
    assert_eq!(choose_name(None, None), None);
}

#[test]
fn stamped_name_appends_output() {
    assert_eq!(name_from_stamp(text("2024-01-31T23-59-59")), "2024-01-31T23-59-59-output");
    assert_eq!(name_from_stamp(String::new()), "-output");
}

#[test]
fn transfers_without_any_name_fail_at_once() {
    assert_eq!(download(text(".."), None, true, i64::MAX), failure(ClientError::NoName));
    assert_eq!(upload(text("/"), None, false, i64::MAX), failure(ClientError::NoName));
    assert_eq!(
        download(text(".."), None, true, 0),
        download_to(text(".."), text("1970-01-01T00-00-00-output"), true)
    );
    assert_eq!(
        upload(text("/"), None, false, 86_400),
        upload_as(text("/"), text("1970-01-02T00-00-00-output"), false)
    );
}

#[test]
fn download_looks_for_the_local_file_unless_forced() {
    assert_eq!(
        download_to(text("r/a"), text("out"), false),
        (
            ClientState::Download(DownloadState::Probe { remote: text("r/a"), local: text("out") }),
            Action::Exists(text("out"))
        )
    );
    assert_eq!(
        download_to(text("r/a"), text("out"), true),
        (
            ClientState::Download(DownloadState::Connect { remote: text("r/a"), local: text("out") }),
            Action::Connect
        )
    );
    assert_eq!(
        download(text("r/a"), Some(text("out")), true, 7),
        download_to(text("r/a"), text("out"), true)
    );
    assert_eq!(download(text("r/a"), None, false, 7), download_to(text("r/a"), text("a"), false));
}

#[test]
fn download_probe_decides_before_the_connection() {
    let probe = DownloadState::Probe { remote: text("r"), local: text("l") };
    let connect = DownloadState::Connect { remote: text("r"), local: text("l") };
    assert_eq!(advance_download(probe.clone(), Event::Exists(true)), failure(ClientError::AlreadyExists));
    for event in [Event::Exists(false), failed()] {
        assert_eq!(
            advance_download(probe.clone(), event),
            (ClientState::Download(connect.clone()), Action::Connect)
        );
    }
}

#[test]
fn download_requests_and_reads_the_header() {
    let connect = DownloadState::Connect { remote: text("r"), local: text("l") };
    assert_eq!(
        advance_download(connect.clone(), Event::Done),
        (
            ClientState::Download(DownloadState::Request { local: text("l") }),
            Action::Send(Packet::DownloadStart(text("r"), 0, 0))
        )
    );
    assert_eq!(advance_download(connect, failed()), failure(ClientError::Connect));
    let request = DownloadState::Request { local: text("l") };
    assert_eq!(
        advance_download(request.clone(), Event::Sent),
        (ClientState::Download(DownloadState::Header { local: text("l") }), Action::Receive)
    );
    assert_eq!(advance_download(request, Event::SendFailed), failure(ClientError::Send));
    let header = DownloadState::Header { local: text("l") };
    assert_eq!(
        advance_download(header.clone(), Event::Received(Packet::DownloadStart(text("r"), 9, 0o600))),
        (
            ClientState::Download(DownloadState::Create { size: 9, mode: 0o600 }),
            Action::Create(text("l"))
        )
    );
    assert_eq!(
        advance_download(header.clone(), Event::Received(Packet::Error(text("Invalid file path")))),
        failure(ClientError::Remote(text("Invalid file path")))
    );
    assert_eq!(
        advance_download(header.clone(), Event::Received(Packet::Ack)),
        failure(ClientError::Unexpected(text("Ok")))
    );
    assert_eq!(advance_download(header, Event::ReceiveFailed), failure(ClientError::Receive));
}

#[test]
fn download_creates_the_file_with_the_announced_mode() {
    let create = DownloadState::Create { size: 9, mode: 0o600 };
    assert_eq!(
        advance_download(create.clone(), Event::Done),
        (ClientState::Download(DownloadState::Mode { size: 9 }), Action::SetMode(0o600))
    );
    assert_eq!(advance_download(create, failed()), failure(ClientError::Io(FileStep::Create)));
    assert_eq!(
        advance_download(DownloadState::Mode { size: 9 }, Event::Done),
        (
            ClientState::Download(DownloadState::Receive(Progress {
                size: 9,
                received: 0,
                exceeded: false
            })),
            Action::Receive
        )
    );
    assert_eq!(
        advance_download(DownloadState::Mode { size: 9 }, failed()),
        failure(ClientError::Io(FileStep::SetMode))
    );
}

#[test]
fn download_writes_chunks_and_checks_the_size() {
    let progress = Progress { size: 9, received: 4, exceeded: false };
    let after = Progress { size: 9, received: 9, exceeded: false };
    assert_eq!(
        advance_download(
            DownloadState::Receive(progress),
            Event::Received(Packet::DownloadChunk(vec![1; 5]))
        ),
        (ClientState::Download(DownloadState::Write(after)), Action::Write(vec![1; 5]))
    );
    assert_eq!(
        advance_download(DownloadState::Write(after), Event::Done),
        (ClientState::Download(DownloadState::Receive(after)), Action::Receive)
    );
    assert_eq!(
        advance_download(DownloadState::Write(after), failed()),
        failure(ClientError::Io(FileStep::Write))
    );
    let end = Event::Received(Packet::DownloadEnd);
    assert_eq!(advance_download(DownloadState::Receive(after), end.clone()), success(Reply::Done));
    assert_eq!(
        advance_download(DownloadState::Receive(progress), end.clone()),
        failure(ClientError::SizeMismatch(progress))
    );
    let beyond = Progress { size: 9, received: 9, exceeded: true };
    assert_eq!(
        advance_download(DownloadState::Receive(beyond), end),
        failure(ClientError::SizeMismatch(beyond))
    );
}

#[test]
fn download_body_fails_on_anything_but_chunks() {
    let receive = DownloadState::Receive(Progress { size: 9, received: 0, exceeded: false });
    assert_eq!(
        advance_download(receive.clone(), Event::Received(Packet::Error(text("Failed to read file")))),
        failure(ClientError::Remote(text("Failed to read file")))
    );
    assert_eq!(
        advance_download(receive.clone(), Event::Received(Packet::UploadChunk(vec![1]))),
        failure(ClientError::Unexpected(text("UploadChunk")))
    );
    assert_eq!(advance_download(receive.clone(), Event::ReceiveFailed), failure(ClientError::Receive));
    assert_eq!(advance_download(receive, Event::Sent), failure(ClientError::Driver));
}

#[test]
fn upload_reads_the_metadata_first() {
    assert_eq!(
        upload_as(text("a.bin"), text("sub/a.bin"), true),
        (
            ClientState::Upload(UploadState::Stat {
                local: text("a.bin"),
                remote: text("sub/a.bin"),
                force: true
            }),
            Action::Stat(text("a.bin"))
        )
    );
    assert_eq!(
        upload(text("dir/a.bin"), None, false, 7),
        upload_as(text("dir/a.bin"), text("a.bin"), false)
    );
    assert_eq!(
        upload(text("dir/a.bin"), Some(text("b")), false, 7),
        upload_as(text("dir/a.bin"), text("b"), false)
    );
}

#[test]
fn upload_announces_size_mode_and_force() {
    let stat = UploadState::Stat { local: text("l"), remote: text("r"), force: true };
    let found = Event::Metadata(Metadata { kind: FileKind::File, size: 77, mode: 0o755 });
    let connect = UploadState::Connect {
        local: text("l"),
        remote: text("r"),
        size: 77,
        mode: 0o755,
        force: true,
    };
    assert_eq!(
        advance_upload(stat.clone(), found),
        (ClientState::Upload(connect.clone()), Action::Connect)
    );
    assert_eq!(advance_upload(stat, failed()), failure(ClientError::Io(FileStep::Metadata)));
    assert_eq!(
        advance_upload(connect.clone(), Event::Done),
        (
            ClientState::Upload(UploadState::Request { local: text("l"), size: 77 }),
            Action::Send(Packet::UploadStart(text("r"), 77, 0o755, true))
        )
    );
    assert_eq!(advance_upload(connect, failed()), failure(ClientError::Connect));
}

#[test]
fn upload_waits_for_the_invitation() {
    let request = UploadState::Request { local: text("l"), size: 77 };
    let ready = UploadState::Ready { local: text("l"), size: 77 };
    assert_eq!(
        advance_upload(request.clone(), Event::Sent),
        (ClientState::Upload(ready.clone()), Action::Receive)
    );
    assert_eq!(advance_upload(request, Event::SendFailed), failure(ClientError::Send));
    assert_eq!(
        advance_upload(ready.clone(), Event::Received(Packet::Ack)),
        (ClientState::Upload(UploadState::Open { size: 77 }), Action::Open(text("l")))
    );
    assert_eq!(
        advance_upload(ready.clone(), Event::Received(Packet::Error(text("Invalid file path")))),
        failure(ClientError::Remote(text("Invalid file path")))
    );
    assert_eq!(
        advance_upload(ready.clone(), Event::Received(Packet::Ping)),
        failure(ClientError::Unexpected(text("Ping")))
    );
    assert_eq!(advance_upload(ready, Event::ReceiveFailed), failure(ClientError::Receive));
}

#[test]
fn upload_picks_the_chunk_size_once() {
    assert_eq!(
        advance_upload(UploadState::Open { size: 77 }, Event::Done),
        (ClientState::Upload(UploadState::Read { chunk: 16384 }), Action::Read(16384))
    );
    assert_eq!(
        advance_upload(UploadState::Open { size: 1 << 30 }, Event::Done),
        (ClientState::Upload(UploadState::Read { chunk: 30720 }), Action::Read(30720))
    );
    assert_eq!(
        advance_upload(UploadState::Open { size: 77 }, failed()),
        failure(ClientError::Io(FileStep::Open))
    );
    assert_eq!(
        advance_upload(UploadState::Chunk { chunk: 30720 }, Event::Sent),
        (ClientState::Upload(UploadState::Read { chunk: 30720 }), Action::Read(30720))
    );
}

#[test]
fn upload_streams_until_the_empty_read() {
    let read = UploadState::Read { chunk: 16384 };
    assert_eq!(
        advance_upload(read.clone(), Event::Data(vec![3; 10])),
        (
            ClientState::Upload(UploadState::Chunk { chunk: 16384 }),
            Action::Send(Packet::UploadChunk(vec![3; 10]))
        )
    );
    assert_eq!(
        advance_upload(read.clone(), Event::Data(Vec::new())),
        (ClientState::Upload(UploadState::End), Action::Send(Packet::UploadEnd))
    );
    assert_eq!(advance_upload(read, failed()), failure(ClientError::Io(FileStep::Read)));
    assert_eq!(
        advance_upload(UploadState::Chunk { chunk: 16384 }, Event::SendFailed),
        failure(ClientError::Send)
    );
    assert_eq!(
        advance_upload(UploadState::End, Event::Sent),
        (ClientState::Upload(UploadState::Verdict), Action::Receive)
    );
    assert_eq!(advance_upload(UploadState::End, Event::SendFailed), failure(ClientError::Send));
}

#[test]
fn upload_ends_with_the_servers_verdict() {
    assert_eq!(advance_upload(UploadState::Verdict, Event::Received(Packet::Ack)), success(Reply::Done));
    assert_eq!(
        advance_upload(UploadState::Verdict, Event::Received(Packet::Error(text("File size mismatch")))),
        failure(ClientError::Remote(text("File size mismatch")))
    );
    assert_eq!(
        advance_upload(UploadState::Verdict, Event::Received(Packet::DownloadEnd)),
        failure(ClientError::Unexpected(text("DownloadEnd")))
    );
    assert_eq!(advance_upload(UploadState::Verdict, Event::ReceiveFailed), failure(ClientError::Receive));
    assert_eq!(advance_upload(UploadState::Verdict, Event::Done), failure(ClientError::Driver));
}

#[test]
fn queries_start_with_their_request() {
    assert_eq!(
        list(None),
        (
            ClientState::Query(QueryState::Connect {
                query: Query::List,
                request: Packet::List(text("./"), Vec::new())
            }),
            Action::Connect
        )
    );
    assert_eq!(
        list(Some(text("sub"))),
        (
            ClientState::Query(QueryState::Connect {
                query: Query::List,
                request: Packet::List(text("sub"), Vec::new())
            }),
            Action::Connect
        )
    );
    assert_eq!(
        remove(text("old"), true, false),
        (
            ClientState::Query(QueryState::Connect {
                query: Query::Remove,
                request: Packet::Remove(text("old"), true, false)
            }),
            Action::Connect
        )
    );
    assert_eq!(
        ping(),
        (
            ClientState::Query(QueryState::Connect { query: Query::Ping, request: Packet::Ping }),
            Action::Connect
        )
    );
}

#[test]
fn queries_send_and_wait() {
    let connect = QueryState::Connect { query: Query::Ping, request: Packet::Ping };
    assert_eq!(
        advance_query(connect.clone(), Event::Done),
        (ClientState::Query(QueryState::Request { query: Query::Ping }), Action::Send(Packet::Ping))
    );
    assert_eq!(advance_query(connect, failed()), failure(ClientError::Connect));
    let request = QueryState::Request { query: Query::Remove };
    assert_eq!(
        advance_query(request.clone(), Event::Sent),
        (ClientState::Query(QueryState::Response { query: Query::Remove }), Action::Receive)
    );
    assert_eq!(advance_query(request, Event::SendFailed), failure(ClientError::Send));
}

#[test]
fn queries_end_with_the_matching_response() {
    let files = vec![File { path: text("a"), size: 1 }];
    let listing = Event::Received(Packet::List(text("."), files.clone()));
    let ack = Event::Received(Packet::Ack);
    let response = |query| QueryState::Response { query };
    assert_eq!(advance_query(response(Query::List), listing.clone()), success(Reply::Files(files)));
    assert_eq!(advance_query(response(Query::Remove), ack.clone()), success(Reply::Done));
    assert_eq!(advance_query(response(Query::Ping), ack.clone()), success(Reply::Done));
    assert_eq!(
        advance_query(response(Query::List), ack),
        failure(ClientError::Unexpected(text("Ok")))
    );
    assert_eq!(
        advance_query(response(Query::Ping), listing.clone()),
        failure(ClientError::Unexpected(text("List")))
    );
    assert_eq!(
        advance_query(response(Query::Remove), listing),
        failure(ClientError::Unexpected(text("List")))
    );
    for query in [Query::List, Query::Remove, Query::Ping] {
        assert_eq!(
            advance_query(response(query), Event::Received(Packet::Error(text("Path does not exist")))),
            failure(ClientError::Remote(text("Path does not exist")))
        );
        assert_eq!(advance_query(response(query), Event::ReceiveFailed), failure(ClientError::Receive));
        assert_eq!(advance_query(response(query), Event::Done), failure(ClientError::Driver));
    }
}

#[test]
fn an_operation_that_has_ended_stays_ended() {
    for event in [Event::Done, Event::Sent, Event::Received(Packet::Ack)] {
        assert_eq!(
            advance(ClientState::Finished(Reply::Done), event.clone()),
            success(Reply::Done)
        );
        assert_eq!(
            advance(ClientState::Failed(ClientError::Connect), event),
            failure(ClientError::Connect)
        );
    }
}

#[test]
fn advance_takes_the_step_of_the_operation() {
    let state = DownloadState::Mode { size: 1 };
    assert_eq!(
        advance(ClientState::Download(state.clone()), Event::Done),
        advance_download(state, Event::Done)
    );
    let state = UploadState::End;
    assert_eq!(
        advance(ClientState::Upload(state.clone()), Event::Sent),
        advance_upload(state, Event::Sent)
    );
    let state = QueryState::Request { query: Query::List };
    assert_eq!(
        advance(ClientState::Query(state.clone()), Event::Sent),
        advance_query(state, Event::Sent)
    );
}
