use masque::stream::EventStreamResponse;
use masque::stream::StreamHandler;

#[test]
fn test_read_keeps_state_until_terminator() {
    let mut h = StreamHandler::new();

    match h.read(vec!["data: one", "data: two"]) {
        EventStreamResponse::Incomplete => (),
        EventStreamResponse::Complete(_) => panic!("no terminator was fed"),
    }

    match h.read(vec![""]) {
        EventStreamResponse::Incomplete => panic!("terminator must complete the event"),
        EventStreamResponse::Complete(ev) => assert_eq!(ev.data(), "one\ntwo"),
    }
}

#[test]
fn test_read_resets_builder_after_completion() {
    let mut h = StreamHandler::new();

    match h.read(vec!["data: first", ""]) {
        EventStreamResponse::Complete(ev) => assert_eq!(ev.data(), "first"),
        EventStreamResponse::Incomplete => panic!("terminator must complete the event"),
    }

    match h.read(vec!["data: second", ""]) {
        EventStreamResponse::Complete(ev) => assert_eq!(ev.data(), "second"),
        EventStreamResponse::Incomplete => panic!("terminator must complete the event"),
    }
}

#[test]
fn test_feed_chunk_buffers_partial_line() {
    let mut h = StreamHandler::new();

    // The field line is cut mid-line across two chunks: the partial line is
    // buffered, not decoded as two malformed lines.
    match h.feed_chunk("data: spl") {
        EventStreamResponse::Incomplete => (),
        EventStreamResponse::Complete(_) => panic!("nothing is complete yet"),
    }
    assert_eq!(h.pending.as_str(), "data: spl");

    match h.feed_chunk("it line\n\n") {
        EventStreamResponse::Complete(ev) => assert_eq!(ev.data(), "split line"),
        EventStreamResponse::Incomplete => panic!("terminator must complete the event"),
    }
    assert_eq!(h.pending.as_str(), "");
}

#[test]
fn test_feed_chunk_whole_event_in_one_chunk() {
    let mut h = StreamHandler::new();

    match h.feed_chunk("id: X\nevent: Y\ndata: A\ndata: B\n\n") {
        EventStreamResponse::Complete(ev) => {
            assert_eq!(ev.id(), &Some("X".to_string()));
            assert_eq!(ev.event(), &Some("Y".to_string()));
            assert_eq!(ev.data(), "A\nB");
        }
        EventStreamResponse::Incomplete => panic!("terminator must complete the event"),
    }
}

#[test]
fn test_feed_chunk_ignores_unknown_fields() {
    let mut h = StreamHandler::new();

    match h.feed_chunk("data: kept\nfoo: bar\n") {
        EventStreamResponse::Incomplete => (),
        EventStreamResponse::Complete(_) => panic!("no terminator was fed"),
    }

    match h.feed_chunk("\n") {
        EventStreamResponse::Complete(ev) => assert_eq!(ev.data(), "kept"),
        EventStreamResponse::Incomplete => panic!("terminator must complete the event"),
    }
}
