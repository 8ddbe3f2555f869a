use opc_agent::llm::{build_messages, completion_result, completions_url, http_error, message, stream_line, StreamDecoder, StreamLine};
use opc_agent::text::{trim, truncate};

#[test]
fn url_drops_trailing_slashes() {
    assert_eq!(completions_url("https://api.deepseek.com"), "https://api.deepseek.com/chat/completions");
    assert_eq!(completions_url("http://localhost:11434/v1//"), "http://localhost:11434/v1/chat/completions");
}

#[test]
fn messages_start_with_the_system_prompt() {
    let h = vec![message("user", "你好".to_string())];
    let m = build_messages("你是助手", &h);
    assert_eq!(m.len(), 2);
    assert_eq!((m[0].role.as_str(), m[0].content.as_str()), ("system", "你是助手"));
    assert_eq!((m[1].role.as_str(), m[1].content.as_str()), ("user", "你好"));
}

#[test]
fn truncate_marks_the_cut() {
    assert_eq!(truncate("一二三四", 2), "一二…");
    assert_eq!(truncate("一二", 2), "一二");
}

#[test]
fn trim_uses_unicode_white_space() {
    assert_eq!(trim("\u{3000} a b\u{85}\n"), "a b");
    assert_eq!(trim("   "), "");
}

#[test]
fn failed_status_reports_the_body() {
    let body = "x".repeat(500);
    let e = completion_result(false, "401 Unauthorized", &body).unwrap_err();
    assert_eq!(e, format!("HTTP 401 Unauthorized: {}…", "x".repeat(400)));
    assert_eq!(http_error("500 Internal Server Error", "boom"), "HTTP 500 Internal Server Error: boom");
}

#[test]
fn completion_content_is_read() {
    let body = r#"{"choices":[{"message":{"role":"assistant","content":"{\"assigned\":[1]}"}}]}"#;
    assert_eq!(completion_result(true, "200 OK", body).unwrap(), "{\"assigned\":[1]}");
}

#[test]
fn completion_without_content_is_an_error() {
    let body = r#"{"choices":[]}"#;
    assert_eq!(completion_result(true, "200 OK", body).unwrap_err(), format!("响应中没有内容: {}", body));
}

#[test]
fn unparsable_completion_is_an_error() {
    let e = completion_result(true, "200 OK", "<html>").unwrap_err();
    assert!(e.starts_with("响应解析失败: "));
    assert!(e.ends_with(" → <html>"));
}

#[test]
fn stream_lines_are_classified() {
    assert!(matches!(stream_line("data: [DONE]\n"), StreamLine::Done));
    assert!(matches!(stream_line(": keep-alive\n"), StreamLine::Skip));
    assert!(matches!(stream_line("data: {\"choices\":[{\"delta\":{}}]}\n"), StreamLine::Skip));
    assert!(matches!(stream_line("data: {\"choices\":[{\"delta\":{\"content\":\"\"}}]}\n"), StreamLine::Skip));
    match stream_line("  data:{\"choices\":[{\"delta\":{\"content\":\"你\"}}]}  \r\n") {
        StreamLine::Delta(d) => assert_eq!(d, "你"),
        _ => panic!("expected a delta"),
    }
}

#[test]
fn stream_decoder_joins_lines_across_chunks() {
    let mut dec = StreamDecoder::new();
    let a = dec.feed(b"data: {\"choices\":[{\"delta\":{\"content\":\"Hel\"}}]}\ndata: {\"choi");
    assert_eq!(a, vec!["Hel".to_string()]);
    let b = dec.feed(b"ces\":[{\"delta\":{\"content\":\"lo\"}}]}\n\n");
    assert_eq!(b, vec!["lo".to_string()]);
    assert!(!dec.is_done());
    let c = dec.feed(b"data: [DONE]\ndata: {\"choices\":[{\"delta\":{\"content\":\"late\"}}]}\n");
    assert!(c.is_empty());
    assert!(dec.is_done());
    let d = dec.feed(b"data: {\"choices\":[{\"delta\":{\"content\":\"after\"}}]}\n");
    assert!(d.is_empty());
    assert_eq!(dec.full_text(), "Hello");
}

#[test]
fn stream_decoder_decodes_lossily() {
    let mut dec = StreamDecoder::new();
    let mut chunk = b"data: {\"choices\":[{\"delta\":{\"content\":\"a".to_vec();
    chunk.push(0xff);
    chunk.extend_from_slice(b"\"}}]}\n");
    let out = dec.feed(&chunk);
    assert_eq!(out, vec!["a\u{fffd}".to_string()]);
}

#[test]
fn stream_reads_the_same_when_cut_between_characters() {
    let whole = "data: {\"choices\":[{\"delta\":{\"content\":\"你好\"}}]}\ndata: {\"choices\":[{\"delta\":{\"content\":\"世界\"}}]}\ndata: [DONE]\n".as_bytes();
    let mut one = StreamDecoder::new();
    let all = one.feed(whole);
    assert_eq!(all, vec!["你好".to_string(), "世界".to_string()]);
    for cut in 0..=whole.len() {
        if std::str::from_utf8(&whole[..cut]).is_err() {
            continue;
        }
        let mut two = StreamDecoder::new();
        let mut parts = two.feed(&whole[..cut]);
        parts.extend(two.feed(&whole[cut..]));
        assert_eq!(parts, all);
        assert_eq!(two.full_text(), "你好世界");
        assert!(two.is_done());
    }
}
