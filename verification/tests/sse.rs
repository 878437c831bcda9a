use rust_llm_gateway::json::UsageCounts;
use rust_llm_gateway::proxy::sse_parser::{
    contents_of, data_of_line, first_usage, has_text, SseParser, MAX_BUFFER_BYTES,
};
use rust_llm_gateway::text;

#[test]
fn events_come_out_when_they_are_complete() {
    let mut parser = SseParser::new();
    assert!(parser.push(b"data: a\n").is_empty());
    assert_eq!(parser.push(b"\ndata: b\n\nda"), ["data: a\n\n", "data: b\n\n"]);
    assert_eq!(parser.push(b"ta: c\n\n"), ["data: c\n\n"]);
    assert!(parser.push(b"").is_empty());
}

#[test]
fn chunk_boundaries_do_not_matter() {
    let bytes = b"data: one\r\n\r\ndata: two\n\nid: 7\ndata: thr\xc3\xa9e\n\ndata: four\n";
    let mut whole = SseParser::default();
    let expected = whole.push(bytes);
    assert_eq!(expected.len(), 3);
    for cut in 0..bytes.len() {
        let mut parser = SseParser::new();
        let mut events = parser.push(&bytes[..cut]);
        events.extend(parser.push(&bytes[cut..]));
        assert_eq!(events, expected);
    }
    let mut parser = SseParser::new();
    let mut events = Vec::new();
    for byte in bytes {
        events.extend(parser.push(&[*byte]));
    }
    assert_eq!(events, expected);
}

#[test]
fn carriage_returns_are_accepted() {
    let mut parser = SseParser::new();
    assert_eq!(
        parser.push(b"data: a\r\n\r\ndata: b\n\r\n"),
        ["data: a\r\n\r\n", "data: b\n\r\n"]
    );
    assert!(parser.push(b"\r\r\n").is_empty());
}

#[test]
fn an_event_that_is_not_utf8_is_left_out() {
    let mut parser = SseParser::new();
    assert_eq!(parser.push(b"data: \xff\n\ndata: ok\n\n"), ["data: ok\n\n"]);
}

#[test]
fn a_flood_without_events_is_dropped() {
    let mut parser = SseParser::new();
    let chunk = vec![b'x'; MAX_BUFFER_BYTES];
    assert!(parser.push(&chunk).is_empty());
    // The ceiling is reached, but not exceeded: the event can still be completed.
    let events = parser.push(b"\n\n");
    assert_eq!(events.len(), 1);
    assert_eq!(events[0].len(), MAX_BUFFER_BYTES + 2);

    assert!(parser.push(&chunk).is_empty());
    assert!(parser.push(b"x").is_empty());
    // Everything that waited is gone.
    assert_eq!(parser.push(b"data: a\n\n"), ["data: a\n\n"]);
}

#[test]
fn content_is_a_text_in_a_delta() {
    let yes = [
        "data: {\"choices\":[{\"delta\":{\"content\":\"Hello\"}}]}\n\n",
        "data: {\"choices\":[{\"delta\":{\"role\":\"a\"}},{\"delta\":{\"content\":\"x\"}}]}\n\n",
        "event: e\r\ndata: {}\r\ndata: {\"choices\":[{\"delta\":{\"content\":\"x\"}}]}\r\n\r\n",
    ];
    for event in yes {
        assert!(SseParser::is_content_event(event), "{}", event);
    }
    let no = [
        "data: [DONE]\n\n",
        "data: {\"choices\":[{\"delta\":{\"content\":\"\"}}]}\n\n",
        "data: {\"choices\":[{\"delta\":{\"role\":\"assistant\"}}]}\n\n",
        "data: {\"choices\":[{\"delta\":{\"content\":null}}]}\n\n",
        "data: {\"choices\":[{\"delta\":{\"content\":5}}]}\n\n",
        "data: {\"choices\":{\"delta\":{\"content\":\"x\"}}}\n\n",
        "data: {\"choices\":[{\"delta\":{\"tool_calls\":[{\"index\":0}]}}]}\n\n",
        "data: {\"usage\":{\"prompt_tokens\":1}}\n\n",
        "data: {\"choices\":[{\"delta\":{\"content\":\"x\"}}]\n\n",
        "data:{\"choices\":[{\"delta\":{\"content\":\"x\"}}]}\n\n",
        "BAD_SSE_DATA_NO_PREFIX\n\n",
        "",
    ];
    for event in no {
        assert!(!SseParser::is_content_event(event), "{}", event);
    }
}

#[test]
fn usage_is_read_from_the_first_document_that_has_it() {
    assert_eq!(
        SseParser::extract_usage(
            "data: {\"choices\":[]}\ndata: {\"usage\":{\"prompt_tokens\":15,\"completion_tokens\":4}}\n\n"
        ),
        Some((15, 4))
    );
    assert_eq!(
        SseParser::extract_usage("data: {\"usage\":{\"prompt_tokens\":15}}\n\n"),
        Some((15, 0))
    );
    assert_eq!(
        SseParser::extract_usage(
            "data: {\"usage\":{\"prompt_tokens\":-1,\"completion_tokens\":\"4\"}}\n\n"
        ),
        Some((0, 0))
    );
    assert_eq!(SseParser::extract_usage("data: {\"usage\":{}}\n\n"), Some((0, 0)));
    for absent in ["null", "7", "\"x\"", "[]", "true"] {
        let event = format!("data: {{\"choices\":[],\"usage\":{}}}\n\n", absent);
        assert_eq!(SseParser::extract_usage(&event), None);
    }
    assert_eq!(
        SseParser::extract_usage(
            "data: {\"choices\":[{\"delta\":{\"content\":\"Hi\"}}],\"usage\":null}\n\n"
        ),
        None
    );
    assert_eq!(SseParser::extract_usage("data: [DONE]\n\n"), None);
    assert_eq!(SseParser::extract_usage("data: {\"choices\":[]}\n\n"), None);
    assert_eq!(SseParser::extract_usage("data: not json\n\n"), None);
    assert_eq!(SseParser::extract_usage("usage: {\"usage\":{}}\n\n"), None);
}

#[test]
fn data_lines_are_recognized() {
    assert_eq!(data_of_line("data: x").as_deref(), Some("x"));
    assert_eq!(data_of_line("data: ").as_deref(), Some(""));
    assert_eq!(data_of_line("data: [DONE]").as_deref(), None);
    assert_eq!(data_of_line("data: [DONE] ").as_deref(), Some("[DONE] "));
    assert_eq!(data_of_line("data:x").as_deref(), None);
    assert_eq!(data_of_line(": comment").as_deref(), None);
}

#[test]
fn decisions_on_what_was_read() {
    assert!(!has_text(&vec![]));
    assert!(!has_text(&vec![String::new()]));
    assert!(has_text(&vec![String::new(), "x".to_string()]));
    let counts = UsageCounts {
        prompt_tokens: Some(3),
        completion_tokens: None,
        total_tokens: Some(9),
    };
    assert_eq!(first_usage(&vec![]), None);
    assert_eq!(first_usage(&vec![None, Some(counts)]), Some((3, 0)));
    let value: serde_json::Value =
        serde_json::from_str("{\"choices\":[{\"delta\":{\"content\":\"a\"}},{},{\"delta\":{\"content\":\"\"}}]}")
            .unwrap();
    assert_eq!(contents_of(&value), ["a", ""]);
}

#[test]
fn lines_are_those_of_std() {
    for sample in ["", "\n", "a", "a\n", "a\nb", "a\r\nb\r\n", "\r\n\r\n", "a\r", "\r\r\n", "a\n\n"] {
        let expected: Vec<String> = sample.lines().map(|l| l.to_string()).collect();
        assert_eq!(text::lines(sample), expected, "{:?}", sample);
    }
}

#[test]
fn text_helpers_agree_with_std() {
    for n in [0u64, 9, 10, 1234567890, u64::MAX] {
        assert_eq!(text::decimal(n), n.to_string());
    }
    assert_eq!(text::hex(&[0, 15, 16, 255, 0xab]), "000f10ffab");
    for sample in ["", " ", "\u{3000} a b\u{2028}", "x", "\u{85}\u{a0}y\u{1680}"] {
        assert_eq!(text::trim(sample), sample.trim());
    }
    for c in ['\u{0}', '\t', '\r', ' ', '\u{1c}', '\u{85}', '\u{200b}', '\u{205f}', '\u{feff}', 'a'] {
        assert_eq!(text::is_whitespace(c), c.is_whitespace());
    }
    for sample in ["", "/", "http://h//", "a/b", "///"] {
        assert_eq!(text::trim_end_slashes(sample), sample.trim_end_matches('/'));
    }
    assert!(text::starts_with("abc", "ab"));
    assert!(!text::starts_with("a", "ab"));
    assert!(text::same("\u{e9}", "\u{e9}"));
    assert!(!text::same("e", "\u{e9}"));
}
