use llm_session::framing::{classify_text, decode_frame, find_delimiter, FrameEvent, FrameSplitter, StreamReader, StreamStep};

fn data(ev: FrameEvent) -> Option<String> {
    match ev {
        FrameEvent::Data(s) => Some(s),
        _ => None,
    }
}

#[test]
fn delimiter_positions() {
    assert_eq!(find_delimiter(b"ab\n\ncd"), Some((2, 2)));
    assert_eq!(find_delimiter(b"ab\r\n\r\ncd"), Some((2, 4)));
    assert_eq!(find_delimiter(b"a\r\n\r\nb\n\n"), Some((1, 4)));
    assert_eq!(find_delimiter(b"ab\ncd\r\n"), None);
    assert_eq!(find_delimiter(b""), None);
}

#[test]
fn one_chunk_or_many_give_the_same_frames() {
    let stream: &[u8] = b"data: one\n\ndata: two\r\n\r\n: keep-alive\n\ndata: three\n\nrest";
    let mut whole = FrameSplitter::new();
    let frames_whole = whole.feed(stream);
    for cut in 0..stream.len() {
        let mut split = FrameSplitter::new();
        let mut frames = split.feed(&stream[..cut]);
        frames.extend(split.feed(&stream[cut..]));
        assert_eq!(frames, frames_whole);
        assert_eq!(split.pending_bytes(), whole.pending_bytes());
    }
    let mut bytewise = FrameSplitter::new();
    let mut frames = Vec::new();
    for b in stream {
        frames.extend(bytewise.feed(&[*b]));
    }
    assert_eq!(frames, frames_whole);
    assert_eq!(frames_whole.len(), 4);
    assert_eq!(frames_whole[1], b"data: two".to_vec());
    assert_eq!(whole.pending_bytes(), b"rest");
}

#[test]
fn frames_are_classified() {
    assert_eq!(data(decode_frame(b"data: {\"a\":1}")), Some("{\"a\":1}".to_string()));
    assert_eq!(data(decode_frame(b"  data:x  \n")), Some("x".to_string()));
    assert!(matches!(decode_frame(b"data: [DONE]"), FrameEvent::Terminal));
    assert!(matches!(decode_frame(b"data:   "), FrameEvent::Skip));
    assert!(matches!(decode_frame(b": keep-alive"), FrameEvent::Skip));
    assert!(matches!(decode_frame(b""), FrameEvent::Skip));
    assert!(matches!(decode_frame(b"event: ping"), FrameEvent::Skip));
}

#[test]
fn truncated_stream_is_one_framing_error() {
    let mut r = StreamReader::new();
    r.push_bytes(b"data: {\"partial\":");
    assert!(matches!(r.next_step(), StreamStep::NeedBytes));
    assert_eq!(r.close(), Err("data: {\"partial\":".to_string()));
    assert!(r.finished());
    assert!(matches!(r.next_step(), StreamStep::Finished));
}

#[test]
fn reader_walks_payloads_until_sentinel() {
    let mut r = StreamReader::new();
    r.push_bytes(b": ping\n\ndata: 1\n\ndata: 2\n\ndata: [DONE]\n\ndata: 3\n\n");
    assert!(matches!(r.next_step(), StreamStep::Payload(s) if s == "1"));
    assert!(matches!(r.next_step(), StreamStep::Payload(s) if s == "2"));
    assert!(matches!(r.next_step(), StreamStep::Finished));
    assert!(matches!(r.next_step(), StreamStep::Finished));
}

#[test]
fn clean_close_is_not_an_error() {
    let mut r = StreamReader::new();
    r.push_bytes(b"data: 1\n\n");
    assert!(matches!(r.next_step(), StreamStep::Payload(_)));
    assert!(matches!(r.next_step(), StreamStep::NeedBytes));
    assert_eq!(r.close(), Ok(()));
}

#[test]
fn text_classification_trims_unicode_space() {
    assert_eq!(data(classify_text("\u{a0}data:\u{3000}{}\u{2003}")), Some("{}".to_string()));
    assert!(matches!(classify_text("data:\t[DONE]\r\n"), FrameEvent::Terminal));
    assert!(matches!(classify_text("dat: x"), FrameEvent::Skip));
    assert!(matches!(decode_frame(&[0x64, 0x61, 0x74, 0x61, 0x3a, 0xff]), FrameEvent::Data(s) if s == "\u{fffd}"));
}
