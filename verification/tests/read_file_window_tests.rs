use codex_context::io_error::{IoError, IoErrorKind};
use codex_context::read_file_window::{
    read_file_window, ReadFileWindow, ReadFileWindowBounds, WindowProgress, WindowReader,
};

fn limits(bytes: usize, lines: usize, chars: usize) -> ReadFileWindowBounds {
    ReadFileWindowBounds {
        offset: 0,
        max_bytes: bytes,
        max_line_fragments: lines,
        max_line_fragment_chars: chars,
    }
}

fn read(
    chunks: Vec<Result<Vec<u8>, IoError>>,
    bounds: ReadFileWindowBounds,
    file_size: usize,
) -> Result<ReadFileWindow, IoError> {
    read_file_window(&chunks, bounds, file_size as u64)
}

#[test]
fn handles_empty_and_arbitrary_chunk_boundaries() {
    let source = "café🙂\nsecond\n";
    let chunks = source
        .as_bytes()
        .chunks(1)
        .map(|chunk| Ok(chunk.to_vec()))
        .collect();
    let result = read(chunks, limits(128, 10, 100), source.len()).expect("window should read");
    assert_eq!(result.text, source);
    assert_eq!(result.end_byte, source.len() as u64);
    assert!(result.eof);

    let result = read(
        vec![Ok(Vec::new()), Ok(b"ok".to_vec()), Ok(Vec::new())],
        limits(16, 10, 100),
        2,
    )
    .expect("empty chunks should not block progress");
    assert_eq!(result.text, "ok");
}

#[test]
fn preserves_multibyte_scalar_split_across_chunks() {
    let source = "aéz";
    let result = read(
        vec![Ok(b"a\xc3".to_vec()), Ok(b"\xa9z".to_vec())],
        limits(16, 10, 100),
        source.len(),
    )
    .expect("split scalar should decode");
    assert_eq!(result.text, source);
}

#[test]
fn returns_stream_errors_without_replacing_them() {
    let error = read(
        vec![Err(IoError::new(IoErrorKind::BrokenPipe, "stream failed"))],
        limits(16, 10, 100),
        11,
    )
    .expect_err("stream error should be returned");
    assert_eq!(error.kind, IoErrorKind::BrokenPipe);
    assert_eq!(error.message, "stream failed");
}

#[test]
fn rejects_incomplete_and_invalid_utf8() {
    let incomplete = read(vec![Ok(b"a\xc3".to_vec())], limits(16, 10, 100), 2)
        .expect_err("incomplete scalar should be rejected");
    assert_eq!(incomplete.kind, IoErrorKind::InvalidData);

    let invalid = read(vec![Ok(b"\xff".to_vec())], limits(16, 10, 100), 1)
        .expect_err("invalid UTF-8 should be rejected");
    assert_eq!(invalid.kind, IoErrorKind::InvalidData);
}

#[test]
fn enforces_raw_byte_budget_without_slicing_a_scalar() {
    let source = "\\\"\n🙂";
    let result = read(vec![Ok(source.as_bytes().to_vec())], limits(2, 10, 100), source.len())
        .expect("the first escaped scalar should fit");
    assert_eq!(result.text, "\\\"");
    assert_eq!(result.end_byte, 2);
    assert_eq!(result.next_offset, Some(2));
}

#[test]
fn rejects_zero_limits_and_offsets_past_eof() {
    for bounds in [limits(0, 10, 100), limits(16, 0, 100), limits(16, 10, 0)] {
        let error = read(vec![Ok(b"x".to_vec())], bounds, 1)
            .expect_err("zero window limits must be rejected");
        assert_eq!(error.kind, IoErrorKind::InvalidInput);
    }

    let error = read(
        vec![],
        ReadFileWindowBounds {
            offset: 2,
            max_bytes: 16,
            max_line_fragments: 10,
            max_line_fragment_chars: 100,
        },
        1,
    )
    .expect_err("past-EOF offsets must be rejected");
    assert_eq!(error.kind, IoErrorKind::InvalidInput);
}

#[test]
fn rejects_early_eof_and_unbounded_empty_chunks() {
    let early_eof = read(vec![Ok(b"x".to_vec())], limits(16, 10, 100), 2)
        .expect_err("a short stream must not claim EOF");
    assert_eq!(early_eof.kind, IoErrorKind::UnexpectedEof);

    let empty_chunks = (0..1_025).map(|_| Ok(Vec::new())).collect();
    let no_progress = read(empty_chunks, limits(16, 10, 100), 1)
        .expect_err("an empty stream must have a bounded work limit");
    assert_eq!(no_progress.kind, IoErrorKind::Interrupted);
}

#[test]
fn enforces_line_fragment_and_scalar_limits_with_exact_continuation() {
    let source = "abcdef\nrest";
    let result = read(vec![Ok(source.as_bytes().to_vec())], limits(128, 10, 3), source.len())
        .expect("line fragment should be bounded");
    assert_eq!(result.text, "abc");
    assert_eq!(result.end_byte, 3);
    assert_eq!(result.next_offset, Some(3));
    assert!(result.line_continues);

    let line_limited = read(vec![Ok(b"one\ntwo\nthree".to_vec())], limits(128, 2, 100), 13)
        .expect("line limit should be bounded");
    assert_eq!(line_limited.text, "one\ntwo\n");
    assert_eq!(line_limited.end_byte, 8);
    assert_eq!(line_limited.next_offset, Some(8));
}

#[test]
fn scalar_limit_is_independent_of_transport_chunk_boundaries() {
    let result = read(
        vec![Ok(b"abc".to_vec()), Ok(b"def\nrest".to_vec())],
        limits(128, 10, 3),
        10,
    )
    .expect("the next transport chunk should complete the bounded window");
    assert_eq!(result.text, "abc");
    assert_eq!(result.end_byte, 3);
    assert_eq!(result.next_offset, Some(3));
    assert!(result.line_continues);
}

#[test]
fn line_limit_is_independent_of_transport_chunk_boundaries() {
    let result = read(
        vec![Ok(b"first".to_vec()), Ok(b" line\nsecond".to_vec())],
        limits(128, 1, 100),
        18,
    )
    .expect("split line should finish before the line limit");
    assert_eq!(result.text, "first line\n");
    assert_eq!(result.next_offset, Some(11));
    assert!(!result.eof);
}

#[test]
fn detects_offsets_inside_utf8_code_points() {
    let result = read(
        vec![Ok(b"\xa9".to_vec())],
        ReadFileWindowBounds {
            offset: 1,
            max_bytes: 16,
            max_line_fragments: 10,
            max_line_fragment_chars: 100,
        },
        2,
    );
    let error = result.expect_err("continuation-byte offset should be rejected");
    assert_eq!(error.kind, IoErrorKind::InvalidInput);
}

#[test]
fn long_line_fragment_continuation_is_byte_exact() {
    let window = ReadFileWindow {
        text: "a".repeat(2_000),
        start_byte: 7,
        end_byte: 2_007,
        line_fragments: 1,
        line_continues: true,
        next_offset: Some(2_007),
        eof: false,
    };
    assert_eq!(window.next_offset, Some(2_007));
    assert!(window.line_continues);
    assert!(!window.eof);
}

#[test]
fn consecutive_windows_give_the_whole_file() {
    let source = "première ligne\nseconde 🙂 ligne\nfin";
    let bytes = source.as_bytes();
    let mut offset = 0u64;
    let mut text = String::new();
    loop {
        let bounds = ReadFileWindowBounds {
            offset,
            max_bytes: 7,
            max_line_fragments: 3,
            max_line_fragment_chars: 5,
        };
        let rest: Vec<Result<Vec<u8>, IoError>> = bytes[offset as usize..]
            .chunks(3)
            .map(|chunk| Ok(chunk.to_vec()))
            .collect();
        let window =
            read_file_window(&rest, bounds, bytes.len() as u64).expect("window should read");
        assert_eq!(window.start_byte, offset);
        text.push_str(&window.text);
        match window.next_offset {
            Some(next) => {
                assert!(next > offset);
                offset = next;
            }
            None => break,
        }
    }
    assert_eq!(text, source);
}

#[test]
fn nul_bytes_are_refused() {
    let error = read(vec![Ok(b"a\0b".to_vec())], limits(16, 10, 100), 3)
        .expect_err("binary content should be rejected");
    assert_eq!(error.kind, IoErrorKind::InvalidData);
    assert!(error.message.contains("NUL"));
}

#[test]
fn the_reader_stops_once_the_window_is_full() {
    let mut reader = WindowReader::new(limits(3, 10, 100), 6).expect("valid bounds");
    match reader.push(b"abcdef").expect("valid bytes") {
        WindowProgress::Complete(window) => {
            assert_eq!(window.text, "abc");
            assert_eq!(window.next_offset, Some(3));
        }
        _ => panic!("the window is full"),
    }
}

#[test]
fn reading_on_gives_back_the_whole_file() {
    let file = format!("é🙂a\n{}\n\nlast line without an end", "wörter ".repeat(40));
    for (bytes, lines, chars) in [(4, 1, 1), (7, 2, 3), (64, 3, 2_000), (100_000, 1, 5)] {
        for chunk in [1, 3, 1_000] {
            let mut offset = 0;
            let mut joined = String::new();
            loop {
                let bounds = ReadFileWindowBounds { offset, ..limits(bytes, lines, chars) };
                let rest = &file.as_bytes()[offset as usize..];
                let chunks = rest.chunks(chunk).map(|part| Ok(part.to_vec())).collect();
                let window = read(chunks, bounds, file.len()).expect("every window is read");
                assert_eq!(window.start_byte, offset);
                joined.push_str(&window.text);
                match window.next_offset {
                    Some(next) => {
                        assert!(next > offset && !window.eof);
                        assert_eq!(next, window.end_byte);
                        offset = next;
                    }
                    None => {
                        assert!(window.eof);
                        break;
                    }
                }
            }
            assert_eq!(joined, file);
        }
    }
}

#[test]
fn empty_chunks_between_bytes_do_not_matter() {
    let source = "one\ntwo";
    let whole = read(vec![Ok(source.as_bytes().to_vec())], limits(100, 10, 10), 7).expect("read");
    let mut chunks: Vec<Result<Vec<u8>, IoError>> = Vec::new();
    for byte in source.bytes() {
        chunks.push(Ok(Vec::new()));
        chunks.push(Ok(vec![byte]));
    }
    let split = read(chunks, limits(100, 10, 10), 7).expect("read");
    assert_eq!(format!("{split:?}"), format!("{whole:?}"));
}
