use explorer::effect::Continuation;
use explorer::lsp::{
    LspHealth, LspMessage, TokenRequestState, buffer_file_request, drain_request_buffer,
    keeps_request, needs_reply,
};
use explorer::lsp_frame::{BodyReader, BodyStep, frame_message, take_header_line};
use explorer::lsp_start::{
    Greeting, LspStart, StartError, StartInput, StartStep, TokenProvider, file_uri,
};
use explorer::lsp_tokens::{SemanticToken, decode_tokens, utf16_to_byte};
use explorer::lsp_turn::{LspInput, LspStep, LspTurn, ServerMessage};
use explorer::lsp_worker::LspQueue;
use explorer::loader::FileData;
use explorer::state::LoadedFile;
use explorer::supervisor::{Supervisor, TaskStatus};
use explorer::watcher::{RawKind, Watch, WatchInput, coalesce};

const SECOND: u128 = 1_000_000_000;

fn token(delta_line: u32, delta_start: u32, length: u32, token_type: u32) -> SemanticToken {
    SemanticToken { delta_line, delta_start, length, token_type }
}

fn loaded(path: &str, text: &str) -> LoadedFile {
    LoadedFile::load(path.to_string(), Some(text.to_string())).unwrap()
}

#[test]
fn framed_messages_read_back() {
    let framed = frame_message("{\"é\":1}");
    assert_eq!(framed, "Content-Length: 8\r\n\r\n{\"é\":1}");
    assert_eq!(take_header_line(0, "Content-Length: 8\r\n"), (8, false));
    assert_eq!(take_header_line(0, "content-length:  12 \r\n"), (12, false));
    assert_eq!(take_header_line(8, "Content-Type: x\r\n"), (8, false));
    assert_eq!(take_header_line(8, "Content-Length: x\r\n"), (0, false));
    assert_eq!(take_header_line(8, "\r\n"), (8, true));
}

#[test]
fn bodies_are_read_piece_by_piece() {
    assert_eq!(BodyReader::new(0), None);
    let mut body = BodyReader::new(10).unwrap();
    assert_eq!(body.step(false, true), BodyStep::Read(10));
    assert!(body.note_read(4));
    assert_eq!(body.step(false, true), BodyStep::Read(6));
    assert_eq!(body.step(true, true), BodyStep::TimedOut);
    assert_eq!(body.step(false, false), BodyStep::ChunkTimedOut);
    assert!(!body.note_read(0));
    assert!(body.note_read(6));
    assert_eq!(body.step(true, false), BodyStep::Done);
}

#[test]
fn places_are_counted_in_units_of_sixteen_bits() {
    assert_eq!(utf16_to_byte("a🦀b", 1), 1);
    assert_eq!(utf16_to_byte("a🦀b", 3), 5);
    assert_eq!(utf16_to_byte("aéb", 2), 3);
    assert_eq!(utf16_to_byte("ab", 9), 2);
}

#[test]
fn tokens_cover_their_lines() {
    let data = FileData::new("fn a() {}\n\nlet b;".to_string());
    let types = vec!["keyword", "function"];
    let lines = decode_tokens(
        &vec![token(0, 0, 2, 0), token(0, 3, 1, 1), token(2, 0, 3, 0), token(0, 4, 9, 7)],
        &data,
        &types,
    );
    assert_eq!(
        lines,
        vec![
            vec![(0, 2, "keyword"), (2, 3, ""), (3, 4, "function"), (4, 9, "")],
            vec![(0, 0, "")],
            vec![(0, 3, "keyword"), (3, 4, ""), (4, 6, "")],
        ]
    );
}

#[test]
fn long_files_are_asked_for_in_part_first() {
    let mut requests = TokenRequestState::new();
    assert_eq!(
        requests.request_tokens(3, 500, 0, true, true),
        vec![
            LspMessage::DidOpen(3),
            LspMessage::RangeRequest { id: 1, file_idx: 3, end_line: 200 },
        ]
    );
    assert_eq!(requests.request_tokens(3, 500, 200, true, true), Vec::new());
    assert_eq!(
        requests.request_tokens(3, 500, 200, true, false),
        vec![LspMessage::FullRequest { id: 2, file_idx: 3 }]
    );
    assert_eq!(requests.request_tokens(3, 500, 500, true, false), Vec::new());
    // A file that changed is opened anew.
    assert_eq!(
        requests.request_tokens(3, 500, 0, true, false),
        vec![
            LspMessage::DidClose(3),
            LspMessage::DidOpen(3),
            LspMessage::FullRequest { id: 3, file_idx: 3 },
        ]
    );
    assert_eq!(requests.close_file(3), vec![LspMessage::DidClose(3)]);
    assert_eq!(requests.close_file(3), Vec::new());
    assert_eq!(
        requests.request_tokens(4, 150, 0, true, true)[1],
        LspMessage::RangeRequest { id: 4, file_idx: 4, end_line: 150 }
    );
    assert_eq!(
        requests.request_tokens(5, 100, 0, true, true)[1],
        LspMessage::FullRequest { id: 5, file_idx: 5 }
    );
}

#[test]
fn known_requests_of_the_server_are_acknowledged() {
    assert!(needs_reply(Some("window/workDoneProgress/create"), true));
    assert!(needs_reply(Some("workspace/diagnostic/refresh"), true));
    assert!(!needs_reply(Some("workspace/diagnostic/refresh"), false));
    assert!(needs_reply(Some("client/registerCapability"), true));
    assert!(!needs_reply(None, true));
}

#[test]
fn requests_are_kept_until_they_can_be_sent() {
    let mut kept = Vec::new();
    for i in 0..10_001 {
        buffer_file_request(&mut kept, i);
    }
    assert_eq!(kept.len(), 10_000);
    let mut kept = vec![4, 5, 6];
    drain_request_buffer(&mut kept, &vec![true, false, true]);
    assert_eq!(kept, vec![5]);
    assert!(keeps_request(false, Some(1)));
    assert!(keeps_request(true, Some(0)));
    assert!(keeps_request(true, None));
    assert!(!keeps_request(true, Some(1)));
    assert_eq!(LspHealth::of(None, 3), LspHealth::NotRunning);
    assert_eq!(
        LspHealth::of(Some(2), 3),
        LspHealth::Running { input_receivers: 2, generation: 3 }
    );
}

#[test]
fn files_are_gone_through_and_answers_taken() {
    let mut files = vec![
        loaded("/r/a.rs", "fn a() {}\n"),
        loaded("/r/b.md", "text\n"),
        loaded("/r/c.rs", "fn c() {}\n"),
    ];
    let types = vec!["keyword"];
    let mut queue = LspQueue::new(&files, true, 0);
    assert_eq!(queue.warmup_queue, vec![0, 2]);
    assert_eq!(
        queue.next_warmup(&files),
        vec![LspMessage::DidOpen(0), LspMessage::FullRequest { id: 1, file_idx: 0 }]
    );
    // No tokens yet: the file is tried again, twice.
    assert!(!queue.take_answer(&mut files, 1, None, &types));
    assert_eq!(queue.warmup_queue, vec![2, 0]);
    queue.next_warmup(&files);
    queue.next_warmup(&files);
    assert!(!queue.take_answer(&mut files, 3, None, &types));
    assert_eq!(queue.warmup_queue, vec![0]);
    queue.next_warmup(&files);
    assert!(!queue.take_answer(&mut files, 4, None, &types));
    assert!(queue.warmup_queue.is_empty());
    // The other file has its tokens.
    assert!(queue.take_answer(&mut files, 2, Some(&vec![token(0, 0, 2, 0)]), &types));
    assert_eq!(files[2].colored_lines[0][0], (0, 2, "keyword"));
    assert!(!queue.take_answer(&mut files, 2, Some(&vec![]), &types));
    // Files that are no Rust files, and those that are gone, are not asked for.
    assert_eq!(queue.user_request(&files, 1), Vec::new());
    files[0].removed = true;
    assert_eq!(queue.user_request(&files, 0), vec![LspMessage::DidClose(0)]);
}

#[test]
fn going_through_the_files_is_given_up_in_the_end() {
    let files = vec![loaded("/r/a.rs", "x\n")];
    let mut queue = LspQueue::new(&files, true, 5);
    queue.expire_warmup(60 * SECOND);
    assert_eq!(queue.warmup_queue.len(), 1);
    queue.expire_warmup(60 * SECOND + 6);
    assert_eq!(queue.warmup_queue.len(), 0);
}

#[test]
fn one_turn_of_the_client() {
    let mut files = vec![loaded("/r/a.rs", "fn a() {}\n")];
    let types = vec!["keyword"];
    let mut queue = LspQueue::new(&files, false, 0);
    let (turn, step) = LspTurn::begin();
    assert!(matches!(step, LspStep::TakeRequest));
    let (turn, step) = turn.go_on(LspInput::NoRequest, &mut queue, &mut files, &types, 1);
    assert!(matches!(step, LspStep::AwaitOutput { timeout: 10_000_000, buffered: true }));
    let (turn, step) = turn.go_on(LspInput::Output(false), &mut queue, &mut files, &types, 2);
    match step {
        LspStep::Send(messages) => assert_eq!(messages.len(), 2),
        _ => panic!("messages are sent"),
    }
    let (turn, step) = turn.go_on(LspInput::Sent(true), &mut queue, &mut files, &types, 3);
    assert!(matches!(step, LspStep::AwaitOutput { timeout: 50_000_000, buffered: false }));
    let (turn, step) = turn.go_on(LspInput::Output(true), &mut queue, &mut files, &types, 4);
    assert!(matches!(step, LspStep::Receive));
    let message = ServerMessage {
        has_id: true,
        id: Some(1),
        method: None,
        tokens: Some(vec![token(0, 0, 2, 0)]),
    };
    let (_, step) =
        turn.go_on(LspInput::Message(Some(message)), &mut queue, &mut files, &types, 5);
    assert!(matches!(
        step,
        LspStep::Done { notify: true, kill: false, next: Continuation::Continue }
    ));
    assert_eq!(files[0].colored_lines.len(), 1);
}

#[test]
fn failures_start_the_client_anew() {
    let mut files = vec![loaded("/r/a.rs", "x\n")];
    let types = Vec::new();
    let mut queue = LspQueue::new(&files, false, 0);
    let (turn, _) = LspTurn::begin();
    let (turn, step) = turn.go_on(LspInput::Request(0), &mut queue, &mut files, &types, 0);
    assert!(matches!(step, LspStep::Send(_)));
    let (_, step) = turn.go_on(LspInput::Sent(false), &mut queue, &mut files, &types, 0);
    assert!(matches!(step, LspStep::Done { kill: false, next: Continuation::Restart, .. }));
    let (turn, _) = LspTurn::begin();
    let (_, step) = turn.go_on(LspInput::Closed, &mut queue, &mut files, &types, 0);
    assert!(matches!(step, LspStep::Done { next: Continuation::Stop, .. }));
    let (_, step) =
        LspTurn::WarmupSent.go_on(LspInput::Sent(false), &mut queue, &mut files, &types, 0);
    assert!(matches!(step, LspStep::Done { kill: true, next: Continuation::Restart, .. }));
    let (_, step) =
        LspTurn::Receiving.go_on(LspInput::Message(None), &mut queue, &mut files, &types, 0);
    assert!(matches!(step, LspStep::Done { kill: false, next: Continuation::Restart, .. }));
    let ask = ServerMessage {
        has_id: true,
        id: None,
        method: Some("client/registerCapability".to_string()),
        tokens: None,
    };
    let (turn, step) =
        LspTurn::Receiving.go_on(LspInput::Message(Some(ask)), &mut queue, &mut files, &types, 0);
    assert!(matches!(step, LspStep::Acknowledge));
    let (_, step) = turn.go_on(LspInput::Sent(true), &mut queue, &mut files, &types, 0);
    assert!(matches!(step, LspStep::Done { notify: false, next: Continuation::Continue, .. }));
}

#[test]
fn client_and_server_greet_each_other() {
    let (start, step) = LspStart::Initializing.go_on(StartInput::Sent(true));
    assert!(matches!(step, StartStep::Receive));
    let other = Greeting { id: Some(7), abilities: None };
    let (start, step) = start.go_on(StartInput::Message(Some(other)));
    assert!(matches!(step, StartStep::Receive));
    let provider = TokenProvider { token_types: vec!["keyword".to_string()], range: Some(true) };
    let answer = Greeting { id: Some(0), abilities: Some(Some(provider)) };
    let (start, step) = start.go_on(StartInput::Message(Some(answer)));
    assert!(matches!(step, StartStep::SendInitialized));
    let (_, step) = start.go_on(StartInput::Sent(true));
    match step {
        StartStep::Ready { token_types, supports_range } => {
            assert_eq!(token_types, vec!["keyword"]);
            assert!(supports_range);
        }
        _ => panic!("the server is there"),
    }
    assert_eq!(file_uri("/a/b.rs"), "file:///a/b.rs");
}

#[test]
fn greeting_fails_in_four_ways() {
    let fails = |step: StartStep| match step {
        StartStep::Fail(error) => error,
        _ => panic!("the greeting fails"),
    };
    let (_, step) = LspStart::Initializing.go_on(StartInput::Sent(false));
    assert_eq!(fails(step), StartError::InitializeNotSent);
    let (_, step) = LspStart::Answering.go_on(StartInput::Message(None));
    assert_eq!(fails(step), StartError::HandshakeFailed);
    let nothing = Greeting { id: Some(0), abilities: None };
    let (_, step) = LspStart::Answering.go_on(StartInput::Message(Some(nothing)));
    assert_eq!(fails(step), StartError::ResultNotRead);
    let bare = Greeting { id: Some(0), abilities: Some(None) };
    let (start, _) = LspStart::Answering.go_on(StartInput::Message(Some(bare)));
    let (_, step) = start.go_on(StartInput::Sent(false));
    assert_eq!(fails(step), StartError::InitializedNotSent);
    assert_eq!(StartError::HandshakeFailed.message(), "LSP init handshake failed");
}

#[test]
fn replaced_files_count_as_modified() {
    assert_eq!(coalesce(Some(RawKind::Created), RawKind::Removed), RawKind::Modified);
    assert_eq!(coalesce(Some(RawKind::Removed), RawKind::Created), RawKind::Modified);
    assert_eq!(coalesce(Some(RawKind::Created), RawKind::Modified), RawKind::Created);
    assert_eq!(coalesce(Some(RawKind::Modified), RawKind::Created), RawKind::Modified);
    assert_eq!(coalesce(Some(RawKind::Modified), RawKind::Removed), RawKind::Removed);
    assert_eq!(coalesce(Some(RawKind::Removed), RawKind::Modified), RawKind::Modified);
    assert_eq!(coalesce(None, RawKind::Created), RawKind::Created);
}

#[test]
fn changes_are_handed_on_after_a_pause() {
    let ignored = vec!["target".to_string(), ".git".to_string()];
    let mut watch = Watch::new("/r".to_string());
    let event = |kind, path: &str| WatchInput::Event {
        kind,
        paths: vec![path.to_string()],
        need_rescan: false,
    };
    let (next, batch) = watch.go_on(&WatchInput::Timeout, &ignored);
    assert_eq!(next, Continuation::Continue);
    assert!(batch.is_none());
    for (kind, path) in [
        (RawKind::Created, "/r/a.rs"),
        (RawKind::Modified, "/r/b.rs"),
        (RawKind::Removed, "/r/a.rs"),
        (RawKind::Created, "/r/target/x"),
        (RawKind::Created, "/elsewhere/x"),
        (RawKind::Removed, "/r/src/c.rs"),
    ] {
        assert!(watch.go_on(&event(Some(kind), path), &ignored).1.is_none());
    }
    assert!(watch.go_on(&event(None, "/r/z.rs"), &ignored).1.is_none());
    let (batch, rescan) = watch.go_on(&WatchInput::Timeout, &ignored).1.unwrap();
    let mut modified = batch.modified;
    modified.sort();
    assert_eq!(modified, vec!["/r/a.rs", "/r/b.rs"]);
    assert!(batch.created.is_empty());
    assert_eq!(batch.removed, vec!["/r/src/c.rs"]);
    assert!(!rescan);
    assert_eq!(watch.go_on(&WatchInput::Failed, &ignored).0, Continuation::Restart);
}

#[test]
fn rescan_finds_what_was_lost() {
    let mut watch = Watch::new("/r".to_string());
    let lost = WatchInput::Event { kind: None, paths: Vec::new(), need_rescan: true };
    watch.go_on(&lost, &Vec::new());
    let (mut batch, rescan) = watch.go_on(&WatchInput::Timeout, &Vec::new()).1.unwrap();
    assert!(rescan);
    let mut files = vec![loaded("/r/a.rs", ""), loaded("/r/b.rs", ""), loaded("/r/c.rs", "")];
    files[2].removed = true;
    let on_disk = vec!["/r/a.rs".to_string(), "/r/c.rs".to_string(), "/r/d.rs".to_string()];
    batch.reconcile_into(&on_disk, &files);
    assert_eq!(batch.created, vec!["/r/c.rs", "/r/d.rs"]);
    assert_eq!(batch.removed, vec!["/r/b.rs"]);
    assert!(batch.modified.is_empty());
}

#[test]
fn ended_tasks_are_started_again() {
    let mut tasks = Supervisor::new();
    tasks.add("one", 0);
    tasks.add("two", 0);
    assert!(tasks.poll(&vec![false, false], SECOND).is_empty());
    assert_eq!(tasks.poll(&vec![false, true], SECOND), vec![(1, TaskStatus::Restarting)]);
    assert!(tasks.poll(&vec![false, true], SECOND + SECOND / 2).is_empty());
    assert_eq!(tasks.poll(&vec![false, true], 2 * SECOND), vec![(1, TaskStatus::Running)]);
    // The second time it waits twice as long.
    assert_eq!(tasks.poll(&vec![false, true], 3 * SECOND), vec![(1, TaskStatus::Restarting)]);
    assert!(tasks.poll(&vec![false, true], 4 * SECOND).is_empty());
    assert_eq!(tasks.poll(&vec![false, true], 5 * SECOND), vec![(1, TaskStatus::Running)]);
    // A task that ran for long starts from the shortest wait again.
    assert_eq!(tasks.poll(&vec![false, true], 40 * SECOND), vec![(1, TaskStatus::Restarting)]);
    assert_eq!(tasks.poll(&vec![false, true], 41 * SECOND), vec![(1, TaskStatus::Running)]);
}
