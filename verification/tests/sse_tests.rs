use ibexgit_core::sse::{SseEvent, SseParser};



#[test]
fn single_event_one_chunk() {
    let mut p = SseParser::new();
    let evs = p.feed(b"data: hello\n\n");
    assert_eq!(
        evs,
        vec![SseEvent {
            event: None,
            data: "hello".into()
        }]
    );
}

#[test]
fn splits_across_chunks() {
    let mut p = SseParser::new();
    assert!(p.feed(b"data: he").is_empty());
    assert!(p.feed(b"llo\n").is_empty());
    let evs = p.feed(b"\n");
    assert_eq!(evs.len(), 1);
    assert_eq!(evs[0].data, "hello");
}

#[test]
fn crlf_terminators_and_value_space() {
    let mut p = SseParser::new();
    let evs = p.feed(b"data: a\r\nevent: delta\r\n\r\ndata:b\r\n\r\n");
    assert_eq!(evs.len(), 2);
    assert_eq!(evs[0].data, "a");
    assert_eq!(evs[0].event.as_deref(), Some("delta"));
    assert_eq!(evs[1].data, "b");
    assert_eq!(evs[1].event, None);
}

#[test]
fn multiline_data_joined_with_newline() {
    let mut p = SseParser::new();
    let evs = p.feed(b"data: line1\ndata: line2\n\n");
    assert_eq!(evs[0].data, "line1\nline2");
}

#[test]
fn comments_and_unknown_fields_ignored() {
    let mut p = SseParser::new();
    let evs =
        p.feed(b": ping\nevent: content_block_delta\nid: 1\nretry: 100\ndata: {\"x\":1}\n\n");
    assert_eq!(evs.len(), 1);
    assert_eq!(evs[0].event.as_deref(), Some("content_block_delta"));
    assert_eq!(evs[0].data, "{\"x\":1}");
}

#[test]
fn no_space_after_colon() {
    let mut p = SseParser::new();
    let evs = p.feed(b"data:[DONE]\n\n");
    assert_eq!(evs[0].data, "[DONE]");
}

#[test]
fn several_events_single_chunk() {
    let mut p = SseParser::new();
    let evs = p.feed(b"data: 1\n\ndata: 2\n\ndata: 3\n\n");
    assert_eq!(evs.len(), 3);
    assert_eq!(evs[2].data, "3");
}

#[test]
fn finish_flushes_unterminated_tail() {
    let mut p = SseParser::new();
    assert!(p.feed(b"data: tail").is_empty());
    let evs = p.finish();
    assert_eq!(evs.len(), 1);
    assert_eq!(evs[0].data, "tail");
    // 纯空白残留 = 一个空的合法事件（流循环层会跳过空 data）。
    let evs = p.feed(b"\n\n").to_vec();
    assert_eq!(evs.len(), 1);
    assert_eq!(evs[0].data, "");
    assert!(p.finish().is_empty());
}

#[test]
fn binary_safe_lossy_utf8() {
    let mut p = SseParser::new();
    let evs = p.feed(&[0x64, 0x61, 0x74, 0x61, 0x3a, 0x20, 0xff, 0x0a, 0x0a]);
    assert_eq!(evs[0].data, "\u{fffd}");
}
