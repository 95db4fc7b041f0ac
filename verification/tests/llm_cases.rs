use jjit::llm::{
    api_error_message, authorization, is_success_status, chat_messages, chat_url, classify_line, is_retryable_error, request_plan,
    retry_delay, SseLine, StreamChunk, StreamDecoder, MAX_RETRIES,
};

#[test]
fn retries_wait_five_seconds_then_thirty_then_five_minutes() {
    assert_eq!(MAX_RETRIES, 3);
    assert_eq!(retry_delay(0, true), Some(5));
    assert_eq!(retry_delay(1, true), Some(30));
    assert_eq!(retry_delay(2, true), Some(300));
    assert_eq!(retry_delay(3, true), None);
    assert_eq!(retry_delay(7, true), None);
    assert_eq!(retry_delay(0, false), None);
}

#[test]
fn retryable_failures_are_recognised() {
    assert!(is_retryable_error(&api_error_message(503, Some("Service Unavailable"), Some("busy"))));
    assert!(is_retryable_error(&api_error_message(500, None, None)));
    assert!(is_retryable_error(&api_error_message(599, None, Some("x"))));
    assert!(is_retryable_error("DeepSeek API returned error (501 Not Implemented): x"));
    assert!(is_retryable_error(&api_error_message(429, Some("Too Many Requests"), None)));
    assert!(is_retryable_error("Rate Limit reached"));
    assert!(is_retryable_error("operation TIMEOUT"));
    assert!(is_retryable_error(
        "Failed to send request to DeepSeek API: error sending request for url (https://api.deepseek.com/chat/completions): operation timed out"
    ));
    assert!(is_retryable_error("Connection refused"));
    assert!(!is_retryable_error(&api_error_message(401, Some("Unauthorized"), Some("see 512"))));
    assert!(!is_retryable_error(&api_error_message(400, Some("Bad Request"), Some("error (500)"))));
    assert!(!is_retryable_error("status 503"));
    assert!(!is_retryable_error(""));
}

#[test]
fn refused_requests_name_their_status() {
    assert!(is_success_status(200));
    assert!(is_success_status(299));
    assert!(!is_success_status(199));
    assert!(!is_success_status(300));
    assert!(!is_success_status(503));
    assert_eq!(
        api_error_message(503, Some("Service Unavailable"), Some("busy")),
        "DeepSeek API returned error (503 Service Unavailable): busy"
    );
    assert_eq!(
        api_error_message(599, None, None),
        "DeepSeek API returned error (599 <unknown status code>): Unknown error"
    );
}

#[test]
fn request_settings_depend_on_thinking() {
    let p = request_plan(true);
    assert!(p.stream);
    assert!(!p.with_temperature);
    assert_eq!(p.reasoning_effort.as_deref(), Some("high"));
    assert_eq!(p.thinking_type.as_deref(), Some("enabled"));
    let p = request_plan(false);
    assert!(p.stream);
    assert!(p.with_temperature);
    assert_eq!(p.reasoning_effort, None);
    assert_eq!(p.thinking_type, None);
}

#[test]
fn request_parts() {
    let m = chat_messages("sys", "usr");
    assert_eq!(m.len(), 2);
    assert_eq!(m[0].role, "system");
    assert_eq!(m[0].content, "sys");
    assert_eq!(m[1].role, "user");
    assert_eq!(m[1].content, "usr");
    assert_eq!(chat_url("https://api.deepseek.com"), "https://api.deepseek.com/chat/completions");
    assert_eq!(authorization("sk-1"), "Bearer sk-1");
}

#[test]
fn stream_lines_are_classified() {
    assert!(matches!(classify_line(""), SseLine::Skip));
    assert!(matches!(classify_line(": keep-alive"), SseLine::Skip));
    assert!(matches!(classify_line("data: [DONE]"), SseLine::Done));
    match classify_line("data: {\"a\":1}") {
        SseLine::Data(d) => assert_eq!(d, "{\"a\":1}"),
        _ => panic!("expected data"),
    }
    match classify_line("data: ") {
        SseLine::Data(d) => assert_eq!(d, ""),
        _ => panic!("expected data"),
    }
}

fn chunk(reasoning: Option<&str>, content: Option<&str>, finished: bool) -> StreamChunk {
    StreamChunk {
        reasoning: reasoning.map(|s| s.to_string()),
        content: content.map(|s| s.to_string()),
        finished,
    }
}

#[test]
fn decoder_splits_lines_and_trims_them() {
    let mut d = StreamDecoder::new(true, false);
    let mut got = Vec::new();
    for ch in "  data: x  \r\ny\n".chars() {
        if let Some(l) = d.push_char(ch) {
            got.push(l);
        }
    }
    assert_eq!(got, vec!["data: x".to_string(), "y".to_string()]);
}

#[test]
fn decoder_lines_do_not_depend_on_how_the_stream_is_cut() {
    let mut whole = StreamDecoder::new(true, false);
    let a = whole.push_text("data: {\"x\":1}\n\ndata: [DONE]\npart");
    let mut cut = StreamDecoder::new(true, false);
    let mut b = cut.push_text("da");
    b.extend(cut.push_text("ta: {\"x\":1}\n"));
    b.extend(cut.push_text("\ndata: [DO"));
    b.extend(cut.push_text("NE]\npart"));
    assert_eq!(a, b);
    assert_eq!(
        a,
        vec!["data: {\"x\":1}".to_string(), String::new(), "data: [DONE]".to_string()]
    );
    let rest_whole = whole.push_text("\n");
    let rest_cut = cut.push_text("\n");
    assert_eq!(rest_whole, vec!["part".to_string()]);
    assert_eq!(rest_cut, rest_whole);
}

#[test]
fn decoder_shows_thinking_in_grey_and_gathers_the_answer() {
    let mut d = StreamDecoder::new(true, false);
    let o = d.apply_chunk(&chunk(Some("let me "), None, false));
    assert_eq!(o.stderr, "\x1b[90mlet me ");
    assert!(!o.finished);
    let o = d.apply_chunk(&chunk(Some("think"), None, false));
    assert_eq!(o.stderr, "think");
    let o = d.apply_chunk(&chunk(None, Some("<reply>"), false));
    assert_eq!(o.stderr, "\x1b[0m\n");
    let o = d.apply_chunk(&chunk(Some(""), Some("</reply>"), true));
    assert_eq!(o.stderr, "");
    assert!(o.finished);
    assert_eq!(d.content(), "<reply></reply>");
    assert_eq!(d.closing(), "");
}

#[test]
fn decoder_without_colour_or_thinking() {
    let mut d = StreamDecoder::new(true, true);
    assert_eq!(d.apply_chunk(&chunk(Some("r"), None, false)).stderr, "r");
    assert_eq!(d.closing(), "\n");
    assert_eq!(d.apply_chunk(&chunk(None, None, true)).stderr, "\n");

    let mut d = StreamDecoder::new(false, false);
    assert_eq!(d.apply_chunk(&chunk(Some("hidden"), Some("a"), false)).stderr, "");
    assert_eq!(d.apply_chunk(&chunk(Some("hidden"), Some(""), true)).stderr, "");
    assert_eq!(d.content(), "a");
}
