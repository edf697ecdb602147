//! Event-stream framing: block splitting across chunk boundaries, `data: `
//! extraction, and resilience to malformed blocks.

use tome::json::parse_json_messages;
use tome::sse::{parse_sse_event, SseBuffer};

#[test]
fn blocks_split_at_blank_lines() {
    let mut buf = SseBuffer::new();
    let events = buf.push_chunk("data: one\n\ndata: two\n\n");
    assert_eq!(events, vec!["data: one".to_string(), "data: two".to_string()]);
}

#[test]
fn partial_blocks_wait_for_more_chunks() {
    let mut buf = SseBuffer::new();
    let events = buf.push_chunk("data: spl");
    assert!(events.is_empty());
    let events = buf.push_chunk("it payload\n");
    assert!(events.is_empty());
    let events = buf.push_chunk("\ndata: next\n\n");
    assert_eq!(events, vec!["data: split payload".to_string(), "data: next".to_string()]);
}

#[test]
fn parse_event_takes_first_data_line() {
    assert_eq!(parse_sse_event("data: hello"), Some("hello".to_string()));
    assert_eq!(
        parse_sse_event("event: message\ndata: {\"x\":1}\nid: 4"),
        Some("{\"x\":1}".to_string())
    );
    assert_eq!(parse_sse_event("data: a\ndata: b"), Some("a".to_string()));
}

#[test]
fn parse_event_rejects_blocks_without_data() {
    assert_eq!(parse_sse_event(""), None);
    assert_eq!(parse_sse_event("event: ping"), None);
    assert_eq!(parse_sse_event("comment\nretry: 100"), None);
    // The prefix must start the line.
    assert_eq!(parse_sse_event("xdata: nope"), None);
}

#[test]
fn malformed_block_does_not_stop_the_stream() {
    let mut buf = SseBuffer::new();
    // One malformed block (no data line), then a valid one: the valid one
    // is still delivered.
    let msgs = buf.drain_chunk("garbage without payload\n\ndata: {\"ok\":true}\n\n");
    assert_eq!(msgs, vec!["{\"ok\":true}".to_string()]);
    // And the stream keeps going afterwards.
    let msgs = buf.drain_chunk("data: later\n\n");
    assert_eq!(msgs, vec!["later".to_string()]);
}

#[test]
fn unparseable_payload_is_dropped_alone() {
    let mut buf = SseBuffer::new();
    let payloads =
        buf.drain_chunk("data: not json at all\n\ndata: {\"a\":1}\n\ndata: [1,2,3]\n\n");
    assert_eq!(payloads.len(), 3);
    // Exactly the parseable payloads survive, in order, each paired with
    // the text it was parsed from.
    let messages = parse_json_messages(&payloads);
    assert_eq!(messages.len(), 2);
    assert_eq!(messages[0].0, "{\"a\":1}");
    assert_eq!(messages[0].1["a"], 1);
    assert_eq!(messages[1].0, "[1,2,3]");
    assert_eq!(messages[1].1[2], 3);
}

#[test]
fn drain_chunk_orders_payloads() {
    let mut buf = SseBuffer::new();
    let msgs = buf.drain_chunk("data: 1\n\nnope\n\ndata: 2\n\ndata: 3\n\n");
    assert_eq!(msgs, vec!["1".to_string(), "2".to_string(), "3".to_string()]);
}
