use meta_agents_server::framing::{
    end_of_input, finish_frame, frame_action, read_bounded_line, take_chunk, BoundedLine, ChunkOutcome, FrameAction,
    FrameBuffer,
};

fn read_all(input: &[u8], max: usize) -> Vec<BoundedLine> {
    let mut pos = 0;
    let mut out = Vec::new();
    loop {
        let (line, consumed) = read_bounded_line(&input[pos..], max);
        pos += consumed;
        let stop = matches!(line, BoundedLine::Eof | BoundedLine::TooLarge);
        out.push(line);
        if stop {
            return out;
        }
    }
}

#[test]
fn bounded_reader_accepts_exact_limit_and_unterminated_final_line() {
    let input = b"1234\r\nlast";
    let mut pos = 0;
    let (line, used) = read_bounded_line(&input[pos..], 4);
    pos += used;
    assert_eq!(line, BoundedLine::Line("1234".to_string()));
    let (line, used) = read_bounded_line(&input[pos..], 4);
    pos += used;
    assert_eq!(line, BoundedLine::Line("last".to_string()));
    let (line, _) = read_bounded_line(&input[pos..], 4);
    assert_eq!(line, BoundedLine::Eof);
}

#[test]
fn bounded_reader_rejects_before_copying_past_the_limit() {
    let input = b"12345\n";
    assert_eq!(read_bounded_line(&input[..], 4), (BoundedLine::TooLarge, 0));
}

#[test]
fn bounded_reader_rejects_non_utf8_without_poisoning_the_next_frame() {
    let input = [0xff, b'\n', b'o', b'k', b'\n'];
    assert_eq!(
        read_all(&input, 8),
        vec![BoundedLine::InvalidUtf8, BoundedLine::Line("ok".to_string()), BoundedLine::Eof]
    );
}

#[test]
fn chunked_reading_assembles_frames_across_chunks() {
    let mut frame = FrameBuffer::new();
    assert_eq!(take_chunk(&mut frame, b"ab", 5), (ChunkOutcome::NeedMore, 2));
    assert_eq!(take_chunk(&mut frame, b"c\r\nrest", 5), (ChunkOutcome::FrameEnd, 3));
    assert_eq!(frame.held_bytes(), b"abc");
    assert_eq!(finish_frame(frame), BoundedLine::Line("abc".to_string()));

    let mut frame = FrameBuffer::new();
    assert_eq!(take_chunk(&mut frame, b"abcd", 5), (ChunkOutcome::NeedMore, 4));
    assert_eq!(take_chunk(&mut frame, b"ef\n", 5), (ChunkOutcome::TooLarge, 0));
    assert_eq!(frame.held_bytes(), b"abcd");

    assert_eq!(end_of_input(FrameBuffer::new()), BoundedLine::Eof);
    let mut frame = FrameBuffer::new();
    take_chunk(&mut frame, b"tail", 8);
    assert_eq!(end_of_input(frame), BoundedLine::Line("tail".to_string()));
    let mut frame = FrameBuffer::new();
    take_chunk(&mut frame, &[0xc3], 8);
    assert_eq!(end_of_input(frame), BoundedLine::InvalidUtf8);
    let mut frame = FrameBuffer::new();
    take_chunk(&mut frame, b"x\r", 8);
    assert_eq!(end_of_input(frame), BoundedLine::Line("x".to_string()));
}

#[test]
fn empty_lines_and_only_one_carriage_return_is_dropped() {
    assert_eq!(
        read_all(b"\n\r\r\nx\r", 10),
        vec![
            BoundedLine::Line(String::new()),
            BoundedLine::Line("\r".to_string()),
            BoundedLine::Line("x".to_string()),
            BoundedLine::Eof
        ]
    );
    assert_eq!(read_all("é\n".as_bytes(), 2), vec![BoundedLine::Line("é".to_string()), BoundedLine::Eof]);
    // a carriage return that ends a frame does not count against the limit
    // and is held apart, so no more than the limit is ever held
    let mut frame = FrameBuffer::new();
    assert_eq!(take_chunk(&mut frame, b"abc\r", 3), (ChunkOutcome::NeedMore, 4));
    assert_eq!(frame.held_bytes(), b"abc");
    assert_eq!(take_chunk(&mut frame, b"\n", 3), (ChunkOutcome::FrameEnd, 1));
    assert_eq!(finish_frame(frame), BoundedLine::Line("abc".to_string()));
    let mut frame = FrameBuffer::new();
    assert_eq!(take_chunk(&mut frame, b"abc\r", 3), (ChunkOutcome::NeedMore, 4));
    assert_eq!(take_chunk(&mut frame, b"d\n", 3), (ChunkOutcome::TooLarge, 0));
    assert_eq!(frame.held_bytes(), b"abc");
    // a carriage return inside the frame is content
    let mut frame = FrameBuffer::new();
    assert_eq!(take_chunk(&mut frame, b"a\r", 4), (ChunkOutcome::NeedMore, 2));
    assert_eq!(take_chunk(&mut frame, b"b\n", 4), (ChunkOutcome::FrameEnd, 2));
    assert_eq!(finish_frame(frame), BoundedLine::Line("a\rb".to_string()));
}

#[test]
fn frame_actions_follow_the_tcp_protocol() {
    assert!(matches!(frame_action(BoundedLine::Eof), FrameAction::Close(None)));
    match frame_action(BoundedLine::TooLarge) {
        FrameAction::Close(Some(ack)) => {
            assert!(!ack.ok);
            assert_eq!(ack.seq, None);
            assert_eq!(ack.error.as_deref(), Some("payload exceeds 65536 byte limit"));
        }
        other => panic!("unexpected {other:?}"),
    }
    match frame_action(BoundedLine::InvalidUtf8) {
        FrameAction::Reply(ack) => {
            assert!(!ack.ok);
            assert_eq!(ack.seq, None);
            assert_eq!(ack.error.as_deref(), Some("payload must be UTF-8"));
        }
        other => panic!("unexpected {other:?}"),
    }
    assert!(matches!(frame_action(BoundedLine::Line(" \t ".to_string())), FrameAction::Skip));
    assert!(matches!(frame_action(BoundedLine::Line(String::new())), FrameAction::Skip));
    match frame_action(BoundedLine::Line(" {\"type\":\"heartbeat\"} ".to_string())) {
        FrameAction::Ingest(line) => assert_eq!(line, " {\"type\":\"heartbeat\"} "),
        other => panic!("unexpected {other:?}"),
    }
}
