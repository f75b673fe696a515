use logsplit_rs::replay::{FileSignature, LogUpdate, PollPlan, Recording};
use logsplit_rs::{
    decode_utf8_chunk, load_resize_events, resize_events_path, ReplayFile, ResizeEvent, TranscriptRecorder,
    VirtualTerminal,
};

fn event(offset: u64, rows: usize, cols: usize) -> ResizeEvent {
    ResizeEvent { offset, rows, cols }
}

fn recording(bytes: &[u8], events: &str) -> Recording {
    Recording {
        bytes: bytes.to_vec(),
        events: load_resize_events(Some(events)),
        signature: None,
    }
}

fn replayed(bytes: &[u8], events: &str) -> (ReplayFile, VirtualTerminal) {
    let mut term = VirtualTerminal::new(10, 10);
    let mut replay = ReplayFile::new("log".to_string());
    replay.replay_all(&mut term, recording(bytes, events));
    (replay, term)
}

#[test]
fn resize_events_path_appends_sidecar_suffix() {
    let path = resize_events_path("/tmp/example.log");
    assert_eq!(path, "/tmp/example.log.resize");
}

#[test]
fn transcript_recorder_writes_initial_and_incremental_resize_events() {
    let mut file = String::new();
    let (mut recorder, first) = TranscriptRecorder::create(0, 24, 80);
    file.push_str(&first.unwrap());
    recorder.append_bytes(b"hello");
    assert_eq!(recorder.resize_record(24, 80), None);
    recorder.record_resize(24, 80);
    file.push_str(&recorder.resize_record(40, 100).unwrap());
    recorder.record_resize(40, 100);

    let events = load_resize_events(Some(&file));
    assert_eq!(
        events,
        vec![
            ResizeEvent {
                offset: 0,
                rows: 24,
                cols: 80,
            },
            ResizeEvent {
                offset: 5,
                rows: 40,
                cols: 100,
            },
        ]
    );
}

#[test]
fn sizes_without_cells_are_not_recorded() {
    let (mut recorder, first) = TranscriptRecorder::create(7, 0, 80);
    assert_eq!(first, None);
    assert_eq!(recorder.last_size, None);
    assert_eq!(recorder.resize_record(24, 0), None);
    assert_eq!(recorder.resize_record(24, 80).unwrap(), "7\t24\t80\n");
    recorder.record_resize(24, 80);
    assert_eq!(recorder.last_size, Some((24, 80)));
    recorder.record_resize(0, 80);
    assert_eq!(recorder.last_size, Some((24, 80)));
}

#[test]
fn large_numbers_are_recorded_and_read() {
    let (_, record) = TranscriptRecorder::create(u64::MAX, usize::MAX, 1);
    let text = record.unwrap();
    assert_eq!(text, "18446744073709551615\t18446744073709551615\t1\n");
    assert_eq!(
        load_resize_events(Some(&text)),
        vec![event(u64::MAX, usize::MAX, 1)]
    );
}

#[test]
fn missing_file_holds_no_events() {
    assert_eq!(load_resize_events(None), vec![]);
    assert_eq!(load_resize_events(Some("")), vec![]);
}

#[test]
fn unreadable_lines_are_passed_over() {
    let text = "# comment\n\n  1\t2\t3  \r\n1\t2\nx\t2\t3\n1\tx\t3\n1\t2\tx\n4\t0\t3\n4\t3\t0\n\
                -1\t2\t3\n+5\t+6\t7\textra\n18446744073709551616\t1\t1\n 8 \t1\t1\n9\t1\t1";
    assert_eq!(
        load_resize_events(Some(text)),
        vec![event(1, 2, 3), event(5, 6, 7), event(9, 1, 1)]
    );
}

#[test]
fn replay_applies_resize_history_by_byte_offset() {
    let mut term = VirtualTerminal::new(10, 10);
    let mut replay = ReplayFile::new("log".to_string());
    replay.replay_all(&mut term, recording(b"abcdef", "0\t1\t3\n3\t1\t6\n"));

    assert_eq!(term.rendered_lines(), vec!["abcdef"]);
}

#[test]
fn replay_starts_with_the_last_size_at_the_start() {
    let (replay, term) = replayed(b"abcdef", "0\t1\t2\n0\t2\t3\n");
    assert_eq!((term.rows(), term.cols()), (2, 3));
    assert_eq!(term.rendered_lines(), vec!["abc", "def"]);
    assert_eq!(replay.offset(), 6);
}

#[test]
fn size_changes_after_the_end_wait() {
    let (mut replay, mut term) = replayed(b"abc", "3\t4\t5\n9\t1\t1\n");
    assert_eq!((term.rows(), term.cols()), (4, 5));
    assert!(replay.poll(&mut term, LogUpdate::Appended(b"defghi".to_vec())));
    assert_eq!((term.rows(), term.cols()), (1, 1));
}

#[test]
fn earlier_offsets_are_caught_up_with() {
    let (_, term) = replayed(b"abcdef", "4\t3\t3\n2\t5\t5\n");
    assert_eq!((term.rows(), term.cols()), (5, 5));
}

#[test]
fn size_change_inside_a_character_waits_for_no_text() {
    let (_, term) = replayed("a\u{4e16}b".as_bytes(), "2\t12\t8\n");
    assert_eq!((term.rows(), term.cols()), (12, 8));
    assert_eq!(term.rendered_lines()[0], "a\u{4e16}b");
}

#[test]
fn unfinished_character_at_the_end_is_replaced() {
    let (mut replay, mut term) = replayed(b"a\xe4\xb8", "");
    assert_eq!(term.rendered_lines()[0], "a\u{fffd}");
    assert!(replay.poll(&mut term, LogUpdate::Appended(b"b".to_vec())));
    assert_eq!(term.rendered_lines()[0], "a\u{fffd}b");
}

#[test]
fn following_a_log_is_replaying_it() {
    let bytes = "one\r\ntwo \u{4e16}\x1b[31mthree\x1b[0m".as_bytes();
    let events = "0\t2\t6\n7\t3\t9\n20\t2\t4\n";
    let (_, whole) = replayed(bytes, events);
    for cut in [0, 3, 9, 12, 15, 25] {
        let (mut replay, mut term) = replayed(&bytes[..cut], events);
        replay.poll(&mut term, LogUpdate::Appended(bytes[cut..].to_vec()));
        assert_eq!(term.rendered_rows(), whole.rendered_rows(), "{cut}");
        assert_eq!((term.rows(), term.cols()), (whole.rows(), whole.cols()));
        assert_eq!(replay.offset(), bytes.len() as u64);
    }
}

#[test]
fn following_behind_a_broken_character_is_replaying() {
    for (first, second) in [("a\u{4e16}".as_bytes(), &b""[..]), (b"a\xe4", b"bc"), (b"a\xe4", b"")] {
        let (_, whole) = replayed(&[first, second].concat(), "2\t4\t8\n3\t5\t9\n");
        let (mut replay, mut term) = replayed(first, "2\t4\t8\n3\t5\t9\n");
        replay.poll(&mut term, LogUpdate::Appended(second.to_vec()));
        assert_eq!(term.rendered_rows(), whole.rendered_rows());
    }
}

#[test]
fn polling_reads_what_is_new() {
    let signature = Some(FileSignature { len: 6, modified: Some(1) });
    let mut term = VirtualTerminal::new(2, 4);
    let mut replay = ReplayFile::new("log".to_string());
    let mut first = recording(b"abc", "0\t2\t4\n");
    first.signature = signature;
    replay.replay_all(&mut term, first);

    assert_eq!(replay.path(), "log");
    assert_eq!(replay.resize_path(), "log.resize");
    assert_eq!(replay.poll_plan(signature, 3), PollPlan::Unchanged);
    assert_eq!(replay.poll_plan(signature, 2), PollPlan::ReplayAll);
    assert_eq!(replay.poll_plan(signature, 9), PollPlan::ReadFrom(3));
    assert_eq!(replay.poll_plan(None, 3), PollPlan::ReplayAll);
    let later = Some(FileSignature { len: 6, modified: Some(2) });
    assert_eq!(replay.poll_plan(later, 9), PollPlan::ReplayAll);

    assert!(!replay.poll(&mut term, LogUpdate::Unchanged));
    assert!(!replay.poll(&mut term, LogUpdate::Appended(Vec::new())));
    assert!(replay.poll(&mut term, LogUpdate::Appended(b"de".to_vec())));
    assert_eq!(term.rendered_lines(), vec!["abcd", "e"]);
    assert!(replay.poll(&mut term, LogUpdate::Replaced(recording(b"x", ""))));
    assert_eq!(term.rendered_lines(), vec!["x", ""]);
    assert_eq!(replay.resize_signature(), None);
    assert_eq!(replay.offset(), 1);
}

#[test]
fn bytes_in_pieces_are_bytes_at_once() {
    let bytes = "a\u{e9}\x1b[1mb\u{4e16}".as_bytes();
    let mut whole = VirtualTerminal::new(2, 4);
    ReplayFile::new(String::new()).feed_bytes(&mut whole, bytes);
    let mut parts = VirtualTerminal::new(2, 4);
    let mut replay = ReplayFile::new(String::new());
    for byte in bytes {
        replay.feed_bytes(&mut parts, &[*byte]);
    }
    assert_eq!(whole.rendered_rows(), parts.rendered_rows());
}

#[test]
fn replay_shows_what_the_terminal_showed() {
    let (mut recorder, first) = TranscriptRecorder::create(0, 3, 8);
    let mut live = VirtualTerminal::new(3, 8);
    let mut record = first.unwrap();
    let mut log: Vec<u8> = Vec::new();
    let mut pending: Vec<u8> = Vec::new();
    let sizes = [(3, 8), (4, 8), (2, 5), (2, 5), (6, 12), (1, 3)];
    let outputs = [
        "one two three\r\nfour".as_bytes(),
        b"\x1b[1;31mfive\xe4\xb8",
        b"\x96six\r\n\r\n\x1b[2A7",
        b"",
        b"eight \x1b[Kni\xff",
        b"ne\r\n10\xc3",
    ];
    live.resize(5, 9);
    record.push_str(&recorder.resize_record(5, 9).unwrap());
    recorder.record_resize(5, 9);
    for (bytes, (rows, cols)) in outputs.into_iter().zip(sizes) {
        log.extend_from_slice(bytes);
        recorder.append_bytes(bytes);
        live.feed(&decode_utf8_chunk(&mut pending, bytes, false));
        if let Some(line) = recorder.resize_record(rows, cols) {
            record.push_str(&line);
        }
        recorder.record_resize(rows, cols);
        live.resize(rows, cols);
    }
    live.feed(&decode_utf8_chunk(&mut pending, &[], true));
    let (_, term) = replayed(&log, &record);
    assert_eq!(load_resize_events(Some(&record)).len(), 7);
    assert_eq!(term.screen_rows(), live.screen_rows());
    assert_eq!(term.history_rows(), live.history_rows());
}
