use vellum::decoder::StreamDecoder;

#[test]
fn decodes_two_deltas_and_done() {
    let mut d = StreamDecoder::new();
    let first = d.feed_chunk(b"data: {\"choices\":[{\"delta\":{\"content\":\"Hel\"}}]}\n");
    assert_eq!(first, vec!["Hel".to_string()]);
    let second = d.feed_chunk(b"data: {\"choices\":[{\"delta\":{\"content\":\"lo\"}}]}\n");
    assert_eq!(second, vec!["lo".to_string()]);
    let third = d.feed_chunk(b"data: [DONE]\n");
    assert!(third.is_empty());
    assert!(d.is_done());
    assert_eq!(d.accumulated_text(), "Hello");
}

#[test]
fn split_lines_decode_identically() {
    let mut d = StreamDecoder::new();
    let mut events: Vec<String> = Vec::new();
    events.extend(d.feed_chunk(b"data: {\"choices\":[{\"delta\":"));
    events.extend(d.feed_chunk(b"{\"content\":\"Hel\"}}]}"));
    events.extend(d.feed_chunk(b"\n"));
    events.extend(d.feed_chunk(b"data: {\"choices\":[{\"delta\":{\"content\":\"lo\"}}]}\ndata: [DONE]\n"));
    assert_eq!(events, vec!["Hel".to_string(), "lo".to_string()]);
    assert!(d.is_done());
    assert_eq!(d.accumulated_text(), "Hello");
}

#[test]
fn malformed_payloads_are_skipped() {
    let mut d = StreamDecoder::new();
    let events = d.feed_chunk(b"data: not json at all\n: heartbeat\n\ndata: {\"choices\":[{\"delta\":{\"content\":\"ok\"}}]}\n");
    assert_eq!(events, vec!["ok".to_string()]);
    assert_eq!(d.accumulated_text(), "ok");
    assert!(!d.is_done());
}

#[test]
fn lines_without_event_prefix_are_discarded() {
    let mut d = StreamDecoder::new();
    let events = d.feed_chunk(b"event: message\n{\"choices\":[{\"delta\":{\"content\":\"no\"}}]}\n");
    assert!(events.is_empty());
    assert_eq!(d.accumulated_text(), "");
}

#[test]
fn message_field_is_used_when_delta_is_empty() {
    let mut d = StreamDecoder::new();
    let events = d.feed_chunk(
        b"data: {\"choices\":[{\"delta\":{\"content\":\"\"},\"message\":{\"content\":\"full\"}}]}\n",
    );
    assert_eq!(events, vec!["full".to_string()]);
}

#[test]
fn nothing_after_done_is_processed() {
    let mut d = StreamDecoder::new();
    let events =
        d.feed_chunk(b"data: [DONE]\ndata: {\"choices\":[{\"delta\":{\"content\":\"late\"}}]}\n");
    assert!(events.is_empty());
    assert!(d.is_done());
    let more = d.feed_chunk(b"data: {\"choices\":[{\"delta\":{\"content\":\"later\"}}]}\n");
    assert!(more.is_empty());
    assert_eq!(d.accumulated_text(), "");
}

#[test]
fn carriage_returns_are_trimmed_from_lines() {
    let mut d = StreamDecoder::new();
    let events = d.feed_chunk(b"data: {\"choices\":[{\"delta\":{\"content\":\"crlf\"}}]}\r\n");
    assert_eq!(events, vec!["crlf".to_string()]);
}

#[test]
fn partial_line_stays_buffered() {
    let mut d = StreamDecoder::new();
    let events = d.feed_chunk(b"data: {\"choices\":[{\"delta\":{\"content\":\"w");
    assert!(events.is_empty());
    assert_eq!(d.accumulated_text(), "");
    let rest = d.feed_chunk(b"ait\"}}]}\n");
    assert_eq!(rest, vec!["wait".to_string()]);
    assert_eq!(d.accumulated_text(), "wait");
}

#[test]
fn multiple_choices_emit_in_order() {
    let mut d = StreamDecoder::new();
    let events = d.feed_chunk(
        b"data: {\"choices\":[{\"delta\":{\"content\":\"a\"}},{\"delta\":{\"content\":\"b\"}}]}\n",
    );
    assert_eq!(events, vec!["a".to_string(), "b".to_string()]);
    assert_eq!(d.accumulated_text(), "ab");
}
