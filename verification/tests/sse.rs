use completions::error::{compute_pow_for_target, CoreError};
use completions::sse::{
    begins_with_brace, business_error, business_error_of_lookups, check_hint, code_error,
    error_of_lookups, find_business_error, is_event, message_ids, parse_json_error, parse_ready_message_ids, split_two_events,
};

fn provider(text: &str) -> CoreError {
    CoreError::ProviderError(text.to_string())
}

#[test]
fn two_events_need_two_empty_lines() {
    assert_eq!(split_two_events("a\n\nb\n\n"), Some(("a", "b")));
    assert_eq!(split_two_events("a\n\nb\n\nc\n\nd"), Some(("a", "b")));
    assert_eq!(split_two_events("事件\n\n二\n\n三"), Some(("事件", "二")));
    assert_eq!(split_two_events("a\n\nb\n"), None);
    assert_eq!(split_two_events("a\n\n"), None);
    assert_eq!(split_two_events(""), None);
    assert_eq!(split_two_events("\n\n\n\n"), Some(("", "")));
    assert_eq!(split_two_events("\n\n\n"), None);
}

#[test]
fn event_names_are_trimmed() {
    assert!(is_event("event: ready\ndata: {}", "ready"));
    assert!(is_event("data: {}\r\n  event:ready  ", "ready"));
    assert!(!is_event("event: ready2", "ready"));
    assert!(!is_event("event : ready", "ready"));
    assert!(!is_event("data: event: ready", "ready"));
    assert!(!is_event("", "ready"));
}

#[test]
fn hints_are_errors() {
    assert_eq!(
        check_hint("event: hint\ndata: {\"finish_reason\":\"rate_limit_reached\"}"),
        Some(CoreError::Overloaded)
    );
    assert_eq!(
        check_hint("event: hint\ndata: {\"finish_reason\":\"input_exceeds_limit\"}"),
        Some(provider("输入内容超长，请缩短后重试"))
    );
    assert_eq!(
        check_hint("event: hint\ndata: input_exceeds_limit rate_limit"),
        Some(CoreError::Overloaded)
    );
    assert_eq!(check_hint("event: hint\ndata: {\"content\":\"other\"}"), None);
    assert_eq!(check_hint("event: update_session\ndata: rate_limit"), None);
}

#[test]
fn ready_ids_are_read() {
    let event = b"event: ready\ndata: {\"request_message_id\":7,\"response_message_id\":8,\"x\":1}\n";
    assert_eq!(parse_ready_message_ids(event), (7, 8));
    assert_eq!(
        parse_ready_message_ids(b"data: {\"request_message_id\":3,\"response_message_id\":-4}"),
        (3, -4)
    );
}

#[test]
fn first_line_with_both_ids_counts() {
    let event = b"data: {\"request_message_id\":1}\ndata: nonsense\ndata: {\"request_message_id\":5,\"response_message_id\":6}\ndata: {\"request_message_id\":9,\"response_message_id\":9}";
    assert_eq!(parse_ready_message_ids(event), (5, 6));
}

#[test]
fn missing_ids_are_one_and_two() {
    assert_eq!(parse_ready_message_ids(b""), (1, 2));
    assert_eq!(parse_ready_message_ids(b"event: ready\ndata: {}"), (1, 2));
    assert_eq!(
        parse_ready_message_ids(b"data: {\"request_message_id\":\"7\",\"response_message_id\":8}"),
        (1, 2)
    );
    assert_eq!(
        parse_ready_message_ids(b"data:{\"request_message_id\":7,\"response_message_id\":8}"),
        (1, 2)
    );
    assert_eq!(
        parse_ready_message_ids(b"data: {\"request_message_id\":1.5,\"response_message_id\":8}"),
        (1, 2)
    );
}

#[test]
fn ids_need_utf8() {
    let mut event = b"data: {\"request_message_id\":7,\"response_message_id\":8}\n".to_vec();
    assert_eq!(parse_ready_message_ids(&event), (7, 8));
    event.push(0xff);
    assert_eq!(parse_ready_message_ids(&event), (1, 2));
}

#[test]
fn both_lookups_have_to_succeed() {
    assert_eq!(message_ids(Some(Some(3)), Some(Some(4))), Some((3, 4)));
    assert_eq!(message_ids(Some(Some(3)), Some(None)), None);
    assert_eq!(message_ids(Some(None), Some(Some(4))), None);
    assert_eq!(message_ids(None, None), None);
}

#[test]
fn json_codes_are_mapped() {
    assert_eq!(parse_json_error("{\"code\":1001,\"msg\":\"x\"}"), CoreError::Overloaded);
    assert_eq!(parse_json_error(" {\"code\":1201}\n"), CoreError::Overloaded);
    assert_eq!(
        parse_json_error("{\"code\":40301,\"msg\":\"bad\",\"data\":null}"),
        provider("INVALID_POW_RESPONSE: bad")
    );
    assert_eq!(
        parse_json_error("{\"code\":-5,\"msg\":\"没有\"}"),
        provider("API error code=-5: 没有")
    );
    assert_eq!(parse_json_error("{\"code\":1}"), provider("API error code=1: unknown"));
    assert_eq!(parse_json_error("{\"code\":1,\"msg\":2}"), provider("API error code=1: unknown"));
}

#[test]
fn unreadable_response_is_quoted() {
    assert_eq!(
        parse_json_error("  <html>  "),
        CoreError::Stream("无法解析的响应: <html>".to_string())
    );
    assert_eq!(
        parse_json_error("{\"code\":\"40301\"}"),
        CoreError::Stream("无法解析的响应: {\"code\":\"40301\"}".to_string())
    );
    let long = "字".repeat(250);
    assert_eq!(
        parse_json_error(&long),
        CoreError::Stream(format!("无法解析的响应: {}", "字".repeat(200)))
    );
}

#[test]
fn code_errors_are_exact() {
    assert_eq!(code_error(1001, "m"), CoreError::Overloaded);
    assert_eq!(code_error(1201, "m"), CoreError::Overloaded);
    assert_eq!(code_error(40301, "m"), provider("INVALID_POW_RESPONSE: m"));
    assert_eq!(code_error(0, "m"), provider("API error code=0: m"));
}

#[test]
fn lookups_decide_the_error() {
    let msg = |m: &str| Some(Some(m.to_string()));
    assert_eq!(error_of_lookups("raw", Some(Some(1001)), msg("m")), CoreError::Overloaded);
    assert_eq!(error_of_lookups("raw", Some(Some(3)), msg("m")), provider("API error code=3: m"));
    assert_eq!(
        error_of_lookups("raw", Some(Some(3)), Some(None)),
        provider("API error code=3: unknown")
    );
    let unreadable = || CoreError::Stream("无法解析的响应: raw".to_string());
    assert_eq!(error_of_lookups("raw", Some(None), msg("m")), unreadable());
    assert_eq!(error_of_lookups("raw", None, None), unreadable());
    assert_eq!(business_error_of_lookups(Some(Some(3)), msg("m")), Some(provider("biz_code=3, m")));
    assert_eq!(business_error_of_lookups(Some(Some(3)), None), Some(provider("biz_code=3, ")));
    assert_eq!(business_error_of_lookups(Some(None), msg("m")), None);
    assert_eq!(business_error_of_lookups(None, None), None);
}

#[test]
fn business_errors_are_found() {
    assert_eq!(
        find_business_error("{\"code\":0,\"data\":{\"biz_code\":5,\"biz_msg\":\"muted\"}}"),
        Some(provider("biz_code=5, muted"))
    );
    assert_eq!(
        find_business_error("noise\n{\"data\":{\"biz_code\":-3}}\n"),
        Some(provider("biz_code=-3, "))
    );
    assert_eq!(business_error(9, "z"), provider("biz_code=9, z"));
}

#[test]
fn only_the_first_json_line_counts() {
    assert_eq!(find_business_error("{}\n{\"data\":{\"biz_code\":5}}"), None);
    assert_eq!(find_business_error("12\n{\"data\":{\"biz_code\":5}}"), None);
    assert_eq!(find_business_error("no json"), None);
    assert_eq!(find_business_error(""), None);
    assert_eq!(find_business_error("{\"data\":{\"biz_code\":\"5\"}}"), None);
}

#[test]
fn json_begins_with_a_brace() {
    assert!(begins_with_brace(" \n{"));
    assert!(!begins_with_brace("[{"));
    assert!(!begins_with_brace("  "));
}

#[test]
fn proof_of_work_failure_is_an_error_of_its_own() {
    assert_eq!(compute_pow_for_target(Ok("h".to_string())), Ok("h".to_string()));
    assert_eq!(
        compute_pow_for_target(Err("no".to_string())),
        Err(CoreError::ProofOfWorkFailed("no".to_string()))
    );
}
