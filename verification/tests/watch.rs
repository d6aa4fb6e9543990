use completions::error::CoreError;
use completions::opening::{judge_ended, judge_opening, Opening, Verdict};
use completions::watch::{
    scan_for_close, scan_for_end, scan_for_update, Progress, Scan, Segment, StreamEvent, Watch,
};

const READY: &str =
    "event: ready\ndata: {\"request_message_id\":1,\"response_message_id\":42}\n\n";

fn segment() -> Segment {
    Segment { request_id: "r".to_string(), index: 2, total: 5 }
}

fn chunk(text: &str) -> StreamEvent {
    StreamEvent::Chunk(text.as_bytes().to_vec())
}

/// The events of a text that an empty line follows.
fn events(text: &str) -> Vec<String> {
    let mut parts: Vec<String> = text.split("\n\n").map(String::from).collect();
    parts.pop();
    parts
}

fn stream_error(text: &str) -> CoreError {
    CoreError::Stream(text.to_string())
}

#[test]
fn natural_end_is_seen_by_status() {
    let end = "data: {\"v\":[{\"quasi_status\":\"x\"},\"FINISHED\"]}\n\n";
    let text = format!("{}{}", READY, "data: {\"p\":\"quasi_status\"} \"FINISHED\"\n\n");
    assert_eq!(scan_for_end(&events(&text), &segment()), Scan::Done(42));
    assert_eq!(scan_for_end(&events(&format!("{}{}", READY, end)), &segment()), Scan::Done(42));
}

#[test]
fn natural_end_is_seen_by_close() {
    assert_eq!(
        scan_for_end(&events(&format!("{}event: close\n\n", READY)), &segment()),
        Scan::Done(42)
    );
    assert_eq!(
        scan_for_end(&events(&format!("{}event: close\n", READY)), &segment()),
        Scan::Running(Some(42))
    );
    assert_eq!(
        scan_for_end(&events(&format!("{}data: \"quasi_status\"\n\n", READY)), &segment()),
        Scan::Running(Some(42))
    );
}

#[test]
fn end_before_ready_fails() {
    assert_eq!(
        scan_for_end(&events("event: close\n\n"), &segment()),
        Scan::Failed(stream_error("req=r 分块 2/5 FINISHED 前未收到 ready 事件"))
    );
}

#[test]
fn hint_fails_the_segment() {
    let text = format!("{}event: hint\ndata: rate_limit\n\nevent: close\n\n", READY);
    assert_eq!(scan_for_end(&events(&text), &segment()), Scan::Failed(CoreError::Overloaded));
    assert_eq!(scan_for_update(&events(&text), None), Scan::Failed(CoreError::Overloaded));
}

#[test]
fn update_needs_a_ready_event() {
    let update = "event: update_session\ndata: {}\n\n";
    assert_eq!(scan_for_update(&events(&format!("{}{}", READY, update)), None), Scan::Done(42));
    assert_eq!(scan_for_update(&events(update), None), Scan::Running(None));
    assert_eq!(scan_for_update(&events(update), Some(9)), Scan::Done(9));
    assert_eq!(scan_for_update(&events(READY), None), Scan::Running(Some(42)));
}

#[test]
fn close_has_to_be_complete() {
    assert!(scan_for_close(&events("data: x\n\nevent: close\n\n")));
    assert!(!scan_for_close(&events("data: x\n\nevent: close\n")));
    assert!(!scan_for_close(&events("")));
}

#[test]
fn waiting_for_the_natural_end_takes_any_pieces() {
    let text = format!("{}data: 一\n\nevent: close\n\n", READY);
    let bytes = text.as_bytes();
    for cut in 0..bytes.len() {
        let mut watch = Watch::new(segment());
        let first = watch.wait_natural_close(StreamEvent::Chunk(bytes[..cut].to_vec()));
        assert_eq!(first, Progress::Pending);
        let second = watch.wait_natural_close(StreamEvent::Chunk(bytes[cut..].to_vec()));
        assert_eq!(second, Progress::Done(42, bytes.to_vec()));
    }
}

#[test]
fn natural_end_byte_by_byte() {
    let text = format!("{}event: close\n\n", READY);
    let mut watch = Watch::new(segment());
    let mut last = Progress::Pending;
    for byte in text.as_bytes() {
        assert_eq!(last, Progress::Pending);
        last = watch.wait_natural_close(StreamEvent::Chunk(vec![*byte]));
    }
    assert_eq!(last, Progress::Done(42, text.into_bytes()));
}

#[test]
fn hint_after_a_complete_piece_is_seen() {
    let mut watch = Watch::new(segment());
    assert_eq!(watch.wait_natural_close(chunk(READY)), Progress::Pending);
    assert_eq!(
        watch.wait_natural_close(chunk("event: hint\ndata: rate_limit\n\n")),
        Progress::Failed(CoreError::Overloaded)
    );
}

#[test]
fn stream_that_ends_after_ready_is_done() {
    let mut watch = Watch::new(segment());
    assert_eq!(watch.wait_natural_close(chunk(READY)), Progress::Pending);
    assert_eq!(
        watch.wait_natural_close(StreamEvent::End),
        Progress::Done(42, READY.as_bytes().to_vec())
    );
}

#[test]
fn stream_that_ends_before_ready_fails() {
    let mut watch = Watch::new(segment());
    assert_eq!(watch.wait_natural_close(chunk("data: 一\n\n")), Progress::Pending);
    assert_eq!(
        watch.wait_natural_close(StreamEvent::End),
        Progress::Failed(stream_error("req=r 分块 2/5 自然结束前流断（已收 11 字节）"))
    );
}

#[test]
fn json_in_place_of_a_stream_is_an_error() {
    let mut watch = Watch::new(segment());
    watch.wait_natural_close(chunk("{\"code\":40301,"));
    watch.wait_natural_close(chunk("\"msg\":\"pow\"}"));
    assert_eq!(
        watch.wait_natural_close(StreamEvent::End),
        Progress::Failed(CoreError::ProviderError("INVALID_POW_RESPONSE: pow".to_string()))
    );
}

#[test]
fn cuts_have_no_say_in_the_outcome() {
    // Not UTF-8 throughout, with a character of three bytes and empty lines of all lengths.
    let mut bytes = READY.as_bytes().to_vec();
    bytes.extend_from_slice(b"data: \xff\xe4\xb8\n\n\n\n\ndata: ");
    bytes.extend_from_slice("一\n\nevent: hint\ndata: rate_limit\n\nevent: close\n\n".as_bytes());
    for end in [bytes.len(), bytes.len() - 20, bytes.len() - 55, 60] {
        let bytes = &bytes[..end];
        let mut outcomes = Vec::new();
        for size in [1, 2, 3, 5, 7, 64, 1000] {
            let mut watch = Watch::new(segment());
            let mut outcome = Progress::Pending;
            for piece in bytes.chunks(size) {
                if outcome == Progress::Pending {
                    outcome = watch.wait_natural_close(StreamEvent::Chunk(piece.to_vec()));
                }
            }
            if outcome == Progress::Pending {
                outcome = watch.wait_natural_close(StreamEvent::End);
            }
            outcomes.push(match outcome {
                Progress::Done(id, _) => Ok(id),
                Progress::Failed(e) => Err(e),
                Progress::Pending => panic!("undecided at the end"),
            });
        }
        for outcome in &outcomes {
            assert_eq!(outcome, &outcomes[0]);
        }
    }
}

#[test]
fn an_event_is_decoded_by_itself() {
    let mut watch = Watch::new(segment());
    let mut bytes = b"data: \xe4\n\n".to_vec();
    bytes.extend_from_slice(READY.as_bytes());
    bytes.extend_from_slice(b"event: close\xff\n\n");
    assert_eq!(watch.wait_natural_close(StreamEvent::Chunk(bytes.clone())), Progress::Pending);
    bytes.extend_from_slice(b"event: close\n\n");
    assert_eq!(
        watch.wait_natural_close(chunk("event: close\n\n")),
        Progress::Done(42, bytes)
    );
}

#[test]
fn bytes_that_are_not_utf8_are_replaced() {
    let mut watch = Watch::new(segment());
    watch.wait_natural_close(StreamEvent::Chunk(vec![b'{', 0xff]));
    assert_eq!(
        watch.wait_natural_close(StreamEvent::End),
        Progress::Failed(stream_error("无法解析的响应: {\u{fffd}"))
    );
}

#[test]
fn failing_stream_fails_the_segment() {
    let failed = || StreamEvent::Failed("reset".to_string());
    let mut watch = Watch::new(segment());
    assert_eq!(watch.wait_natural_close(failed()), Progress::Failed(stream_error("reset")));
    assert_eq!(watch.wait_ready_and_update(failed()), Progress::Failed(stream_error("reset")));
    assert_eq!(watch.wait_close(failed()), Some(Err(stream_error("reset"))));
}

#[test]
fn update_may_come_before_ready() {
    let mut watch = Watch::new(segment());
    let update = "event: update_session\n\n";
    assert_eq!(watch.wait_ready_and_update(chunk(update)), Progress::Pending);
    assert_eq!(watch.wait_ready_and_update(chunk(READY)), Progress::Pending);
    let received = format!("{}{}:\n\n", update, READY).into_bytes();
    assert_eq!(watch.wait_ready_and_update(chunk(":\n\n")), Progress::Done(42, received));
}

#[test]
fn empty_stream_is_an_error_while_waiting_for_the_update() {
    let mut watch = Watch::new(segment());
    assert_eq!(
        watch.wait_ready_and_update(StreamEvent::End),
        Progress::Failed(stream_error("req=r 分块 2/5 收到空流"))
    );
    let mut watch = Watch::new(segment());
    watch.wait_ready_and_update(chunk("{\"code\":1001}"));
    assert_eq!(
        watch.wait_ready_and_update(StreamEvent::End),
        Progress::Failed(CoreError::Overloaded)
    );
}

#[test]
fn waiting_for_close_goes_on_from_what_was_received() {
    let mut watch = Watch::resume(b"event: clo".to_vec(), segment());
    assert!(!watch.is_closed());
    assert_eq!(watch.wait_close(chunk("se\n")), None);
    assert_eq!(watch.wait_close(chunk("\n")), Some(Ok(())));
    assert!(watch.is_closed());
    let mut watch = Watch::resume(b"data".to_vec(), segment());
    assert_eq!(
        watch.wait_close(StreamEvent::End),
        Some(Err(stream_error("req=r 分块 2/5 流在 close 前结束")))
    );
    assert!(Watch::resume(b"event: close\n\n".to_vec(), segment()).is_closed());
}

#[test]
fn opening_is_judged_by_two_events() {
    assert_eq!(judge_opening(READY), Verdict::Pending);
    assert_eq!(
        judge_opening(&format!("{}event: update_session\n\n", READY)),
        Verdict::Ready(42)
    );
    assert_eq!(judge_opening("a\n\nb\n\nevent: hint\ndata: rate_limit\n\n"), Verdict::Ready(2));
    assert_eq!(
        judge_opening(&format!("{}event: hint\ndata: rate_limit\n\n", READY)),
        Verdict::Refused(CoreError::Overloaded)
    );
}

#[test]
fn ended_opening_is_judged_by_what_was_received() {
    let business = "{\"data\":{\"biz_code\":7,\"biz_msg\":\"mute\"}}";
    let error = CoreError::ProviderError("biz_code=7, mute".to_string());
    assert_eq!(judge_ended(business, 1, false), Verdict::Broken(error, true));
    assert_eq!(
        judge_ended("{\"code\":40301,\"msg\":\"p\"}", 30, true),
        Verdict::Broken(
            CoreError::ProviderError("INVALID_POW_RESPONSE: p".to_string()),
            true
        )
    );
    assert_eq!(
        judge_ended("{\"code\":40301,\"msg\":\"p\"}", 30, false),
        Verdict::Broken(stream_error("空 SSE 流 (已收到 30 字节)"), false)
    );
    assert_eq!(
        judge_ended("", 0, true),
        Verdict::Broken(stream_error("空 SSE 流 (已收到 0 字节)"), false)
    );
}

#[test]
fn opening_keeps_every_byte() {
    let text = format!("{}data: 一\n\n", READY);
    let bytes = text.as_bytes();
    let cut = bytes.len() - 4;
    let mut opening = Opening::new();
    assert_eq!(
        opening.step(StreamEvent::Chunk(bytes[..cut].to_vec()), false),
        Verdict::Pending
    );
    assert_eq!(
        opening.step(StreamEvent::Chunk(bytes[cut..].to_vec()), false),
        Verdict::Ready(42)
    );
    assert_eq!(opening.buf, bytes);
    let expected = format!(
        "{}{}",
        String::from_utf8_lossy(&bytes[..cut]),
        String::from_utf8_lossy(&bytes[cut..])
    );
    assert_eq!(opening.text, expected);
    assert!(opening.text.contains('\u{fffd}'));
}
