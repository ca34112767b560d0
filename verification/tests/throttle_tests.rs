use ibexgit_core::ai_config::{delta_event, DeltaThrottle};

#[test]
fn throttle_sends_by_size_or_time() {
    let mut t = DeltaThrottle::new();
    assert_eq!(t.push("hello ", 10), None);
    assert_eq!(t.push("world", 50), None);
    // enough time passed: the buffered text goes out as one chunk
    assert_eq!(t.push("!", 130).as_deref(), Some("hello world!"));
    // 24 characters at once go out without waiting
    let long = "abcdefghijklmnopqrstuvwx";
    assert_eq!(t.push(long, 0).as_deref(), Some(long));
    assert_eq!(t.push("tail", 0), None);
    assert_eq!(t.flush().as_deref(), Some("tail"));
    assert_eq!(t.flush(), None);
    // nothing buffered: no empty chunk even when the time is up
    assert_eq!(t.push("", 500), None);
}

#[test]
fn throttle_keeps_all_text_in_order() {
    let mut t = DeltaThrottle::new();
    let mut sent = String::new();
    let pieces = ["a", "bb", "ccc", "dddddddddddddddddddddddddd", "e", "f"];
    for (i, p) in pieces.iter().enumerate() {
        if let Some(c) = t.push(p, (i as u64) * 50) {
            sent.push_str(&c);
        }
    }
    if let Some(c) = t.flush() {
        sent.push_str(&c);
    }
    assert_eq!(sent, pieces.concat());
}

#[test]
fn delta_event_carries_the_chunk() {
    let e = delta_event(7, "xy".into());
    assert_eq!(e.task_id, 7);
    assert_eq!(e.phase, "delta");
    assert_eq!(e.text.as_deref(), Some("xy"));
}
