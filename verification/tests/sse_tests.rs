use rate_limit_retry::PayloadFields;
use rate_limit_retry::detect_rate_limit_in_sse;
use rate_limit_retry::extract_error_text;
use rate_limit_retry::is_rate_limit_error;

#[test]
fn test_is_rate_limit_error() {
    assert!(is_rate_limit_error("Rate limit error, please wait"));
    assert!(is_rate_limit_error("RATE LIMIT EXCEEDED"));
    assert!(is_rate_limit_error("You have exceeded the rate limit"));
    assert!(!is_rate_limit_error("Internal server error"));
    assert!(!is_rate_limit_error("Authentication failed"));
}

#[test]
fn test_is_rate_limit_error_empty() {
    assert!(!is_rate_limit_error(""));
    assert!(!is_rate_limit_error("rate-limit"));
    assert!(is_rate_limit_error("rate limit"));
}

#[test]
fn test_detect_rate_limit_in_sse() {
    let sse_data = r#"event: message_start
data: {"type":"message_start","message":{"role":"assistant","stop_sequence":null,"usage":{"output_tokens":0,"cache_creation_input_tokens":0,"input_tokens":0,"cache_read_input_tokens":0},"stop_reason":null,"model":"error","id":"msg_e76873af-d47","type":"message","content":[]}}

event: content_block_start
data: {"type":"content_block_start","index":0,"content_block":{"text":"","type":"text"}}

event: content_block_delta
data: {"type":"content_block_delta","index":0,"delta":{"text":"Rate limit error, please wait before trying again","type":"text_delta"}}
"#;

    assert!(detect_rate_limit_in_sse(sse_data));
}

#[test]
fn test_detect_rate_limit_in_sse_no_error() {
    let sse_data = r#"event: content_block_delta
data: {"type":"content_block_delta","index":0,"delta":{"text":"Hello, how can I help you?","type":"text_delta"}}
"#;

    assert!(!detect_rate_limit_in_sse(sse_data));
}

#[test]
fn test_detect_delta_text_payloads() {
    let hit = "data: {\"delta\":{\"text\":\"Rate limit error, please wait\"}}\n";
    assert!(detect_rate_limit_in_sse(hit));
    let miss = "data: {\"delta\":{\"text\":\"Hello, how can I help you?\"}}\n";
    assert!(!detect_rate_limit_in_sse(miss));
}

#[test]
fn test_detect_done_sentinel_is_skipped() {
    assert!(!detect_rate_limit_in_sse("data: [DONE]\n"));
    assert!(!detect_rate_limit_in_sse("data:  [DONE]  \n"));
    assert!(!detect_rate_limit_in_sse("data: [DONE]\r\n"));
    assert!(!detect_rate_limit_in_sse("data: [DONE]"));
}

#[test]
fn test_detect_error_field_variants() {
    // error as a plain string
    assert!(detect_rate_limit_in_sse("data: {\"error\":\"Rate limit exceeded\"}\n"));
    // error.message
    assert!(detect_rate_limit_in_sse(
        "data: {\"error\":{\"message\":\"rate limit reached for requests\"}}\n"
    ));
    // error.detail
    assert!(detect_rate_limit_in_sse(
        "data: {\"error\":{\"detail\":\"You hit a RATE LIMIT\"}}\n"
    ));
    // top-level message
    assert!(detect_rate_limit_in_sse("data: {\"message\":\"rate limit\"}\n"));
}

#[test]
fn test_detect_raw_text_fallback() {
    // Not valid JSON: the raw payload itself is the candidate text.
    assert!(detect_rate_limit_in_sse("data: upstream says rate limit, slow down\n"));
    assert!(!detect_rate_limit_in_sse("data: plain text without the marker\n"));
}

#[test]
fn test_detect_ignores_lines_without_data_prefix() {
    // The marker outside a data line is never inspected.
    assert!(!detect_rate_limit_in_sse("event: rate limit\n"));
    assert!(!detect_rate_limit_in_sse("rate limit\n"));
    assert!(!detect_rate_limit_in_sse(""));
}

#[test]
fn test_detect_extraction_shadows_raw_payload() {
    // The payload is valid JSON, so only the extracted delta text is
    // classified; the marker elsewhere in the raw payload must not match.
    let chunk = "data: {\"delta\":{\"text\":\"hello\"},\"note\":\"please rate limit yourself\"}\n";
    assert!(!detect_rate_limit_in_sse(chunk));
}

#[test]
fn test_detect_crlf_lines() {
    let chunk = "event: x\r\ndata: {\"error\":\"rate limit\"}\r\n";
    assert!(detect_rate_limit_in_sse(chunk));
}

#[test]
fn test_detect_unrelated_structured_content() {
    let chunk = "data: {\"foo\":\"bar\",\"n\":3}\n\ndata: {\"error\":{\"message\":\"quota ok\"}}\n";
    assert!(!detect_rate_limit_in_sse(chunk));
}

fn fields(
    error_str: Option<&str>,
    error_message: Option<&str>,
    error_detail: Option<&str>,
    delta_text: Option<&str>,
    message: Option<&str>,
) -> PayloadFields {
    PayloadFields {
        error_str: error_str.map(|s| s.to_string()),
        error_message: error_message.map(|s| s.to_string()),
        error_detail: error_detail.map(|s| s.to_string()),
        delta_text: delta_text.map(|s| s.to_string()),
        message: message.map(|s| s.to_string()),
    }
}

#[test]
fn test_extract_error_text_priority() {
    let all = fields(Some("a"), Some("b"), Some("c"), Some("d"), Some("e"));
    assert_eq!(extract_error_text(all), Some("a".to_string()));
    let no_str = fields(None, Some("b"), Some("c"), Some("d"), Some("e"));
    assert_eq!(extract_error_text(no_str), Some("b".to_string()));
    let detail = fields(None, None, Some("c"), Some("d"), Some("e"));
    assert_eq!(extract_error_text(detail), Some("c".to_string()));
    let delta = fields(None, None, None, Some("d"), Some("e"));
    assert_eq!(extract_error_text(delta), Some("d".to_string()));
    let message = fields(None, None, None, None, Some("e"));
    assert_eq!(extract_error_text(message), Some("e".to_string()));
    let none = fields(None, None, None, None, None);
    assert_eq!(extract_error_text(none), None);
}
