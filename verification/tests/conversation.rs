use clif_pad::conversation::{compact_conversation, estimate_conversation_tokens};
use clif_pad::json::{self, Json};
use clif_pad::messages::{
    attachment_message, can_attach, can_send, chat_message, conversation_has_vision, image_is_ok,
    is_overflow, plain_request_body, request_body, request_headers, retry_body, system_message,
    text_message, tool_message, ChatMessage,
};

fn call(id: &str) -> Json {
    Json::object().with_str("id", id).with_str("type", "function").with(
        "function",
        Json::object().with_str("name", "read_file").with_str("arguments", "{}"),
    )
}

/// One early text turn, many text turns, and a tail of calls with their results.
fn synthetic_conversation_with_tool_tail() -> Vec<Json> {
    let mut conv = vec![
        text_message("system", "system prompt"),
        text_message("user", "early task"),
        text_message("assistant", "ok working on it"),
    ];
    for i in 0..20 {
        conv.push(text_message("user", &format!("turn {} please continue", i)));
        conv.push(text_message("assistant", &"x".repeat(2000)));
    }
    conv.push(
        Json::object()
            .with_str("role", "assistant")
            .with("content", Json::Null)
            .with("tool_calls", Json::Array(vec![call("tc1"), call("tc2")])),
    );
    conv.push(tool_message("tc1", "result one"));
    conv.push(tool_message("tc2", "result two"));
    conv.push(text_message("assistant", "all done"));
    conv
}

#[test]
fn compact_does_not_orphan_tool_messages() {
    let mut conv = synthetic_conversation_with_tool_tail();
    compact_conversation(&mut conv, 1_000);

    let mut declared: std::collections::HashSet<String> = std::collections::HashSet::new();
    for msg in &conv {
        let role = msg.get_str("role").unwrap_or("");
        if role == "assistant" {
            if let Some(tcs) = msg.get_array("tool_calls") {
                for tc in tcs {
                    if let Some(id) = tc.get_str("id") {
                        declared.insert(id.to_string());
                    }
                }
            }
        } else if role == "tool" {
            let tcid = msg.get_str("tool_call_id").unwrap_or("");
            assert!(
                declared.contains(tcid),
                "tool message tc_id={} has no preceding assistant.tool_calls in compacted conversation",
                tcid
            );
        }
    }
}

#[test]
fn compact_preserves_system_prompt_at_index_zero() {
    let mut conv = synthetic_conversation_with_tool_tail();
    compact_conversation(&mut conv, 1_000);
    assert_eq!(
        conv[0].get_str("role").unwrap_or(""),
        "system",
        "tier 3 must keep the system prompt as the first message"
    );
}

#[test]
fn compaction_shortens_and_keeps_the_end() {
    let mut conv = synthetic_conversation_with_tool_tail();
    let before = estimate_conversation_tokens(&conv);
    compact_conversation(&mut conv, 1_000);
    assert!(estimate_conversation_tokens(&conv) < before);
    assert_eq!(conv[conv.len() - 1].get_str("content"), Some("all done"));
}

#[test]
fn a_small_conversation_is_left_alone() {
    let mut conv = vec![text_message("system", "s"), text_message("user", "hello")];
    compact_conversation(&mut conv, 1_000);
    assert_eq!(conv.len(), 2);
    assert_eq!(conv[1].get_str("content"), Some("hello"));
}

fn answered(result: &str) -> Vec<Json> {
    let mut conv = vec![
        text_message("system", "s"),
        Json::object().with_str("role", "assistant").with("tool_calls", Json::Array(vec![call("t1")])),
        tool_message("t1", result),
    ];
    for _ in 0..8 {
        conv.push(text_message("user", "u"));
    }
    conv
}

#[test]
fn old_results_are_stubbed() {
    let mut conv = answered(&"y".repeat(400));
    compact_conversation(&mut conv, 100);
    assert_eq!(conv.len(), 11);
    assert_eq!(conv[2].get_str("content"), Some("[compacted]"));
    assert_eq!(conv[2].get_str("role"), Some("tool"));
    assert_eq!(conv[2].get_str("tool_call_id"), Some("t1"));
    assert_eq!(conv[0].get_str("content"), Some("s"));
    assert!(conv[1].get_array("tool_calls").is_some());
    for m in &conv[3..] {
        assert_eq!(m.get_str("content"), Some("u"));
    }
}

#[test]
fn long_results_are_measured_in_characters() {
    let lines = |line: &str| vec![line; 100].join("\n");
    let mut wide = answered(&lines(&"é".repeat(18)));
    compact_conversation(&mut wide, 900);
    assert_eq!(wide[2].get_str("content"), Some("[compacted]"));
    let mut long = answered(&lines(&"x".repeat(37)));
    compact_conversation(&mut long, 900);
    assert!(long[2].get_str("content").map_or(false, |c| c.contains("[... 40 lines omitted ...]")));
}

#[test]
fn tokens_grow_with_the_text() {
    let short = vec![text_message("user", "abcd")];
    let long = vec![text_message("user", &"abcd".repeat(100))];
    assert!(estimate_conversation_tokens(&short) < estimate_conversation_tokens(&long));
    assert_eq!(estimate_conversation_tokens(&Vec::new()), 0);
}

#[test]
fn a_cached_system_prompt_is_marked() {
    let plain = system_message("p", false);
    assert_eq!(plain.get_str("content"), Some("p"));
    let cached = system_message("p", true);
    let parts = cached.get_array("content").expect("parts");
    assert_eq!(parts[0].get_str("text"), Some("p"));
    assert!(parts[0].get("cache_control").is_some());
}

#[test]
fn attachments_name_their_file() {
    assert!(can_attach("fn main() {}"));
    let m = attachment_message("src/main.rs", "fn main() {}");
    let content = m.get_str("content").expect("text");
    assert!(content.contains("src/main.rs") && content.contains("fn main() {}"));
    assert!(!can_attach(&format!("a{}", "é".repeat(20000))));
}

fn chat(role: &str, content: &str, images: Option<Vec<String>>) -> ChatMessage {
    ChatMessage {
        role: role.to_string(),
        content: content.to_string(),
        tool_call_id: None,
        name: None,
        tool_calls: None,
        images,
    }
}

#[test]
fn images_become_parts() {
    let url = "data:image/png;base64,AAAA".to_string();
    assert!(image_is_ok(&url));
    let m = chat_message(&chat("user", "look", Some(vec![url]))).expect("kept");
    assert!(m.get_array("content").is_some());
    assert!(conversation_has_vision(&vec![m]));
    let plain = chat_message(&chat("user", "look", None)).expect("kept");
    assert_eq!(plain.get_str("content"), Some("look"));
    assert!(!conversation_has_vision(&vec![plain]));
}

#[test]
fn images_are_only_read_where_they_are_sent() {
    let bad = Some(vec!["x,y".to_string()]);
    assert!(!can_send(&chat("user", "look", bad.clone())));
    assert!(!can_send(&chat("assistant", "look", bad.clone())));
    let mut tool = chat("tool", "done", bad.clone());
    assert!(can_send(&tool));
    assert!(chat_message(&tool).is_none());
    tool.tool_call_id = Some("t1".to_string());
    assert_eq!(chat_message(&tool).expect("kept").get_str("content"), Some("done"));
    let mut calls = chat("assistant", "", bad);
    calls.tool_calls = Some(vec![Json::object()]);
    assert!(can_send(&calls));
    assert!(chat_message(&calls).expect("kept").get_array("tool_calls").is_some());
}

#[test]
fn requests_for_each_provider() {
    let conv = vec![text_message("user", "hi")];
    let tools = vec![Json::object().with_str("type", "function")];
    let body = request_body("m", &conv, &tools, false, "openrouter");
    assert_eq!(body.get_str("model"), Some("m"));
    assert_eq!(body.get_str("tool_choice"), Some("auto"));
    assert_eq!(body.get_bool("stream"), Some(true));
    assert_eq!(body.get_array("messages").map(|v| v.len()), Some(1));
    assert!(body.get("transforms").is_some());
    let other = request_body("m", &conv, &tools, false, "openai");
    assert!(other.get("transforms").is_none());
    let again = retry_body("m", &conv, &tools, "openai");
    assert!(again.get("tool_choice").is_none());
    let plain = plain_request_body("m", &conv, &tools);
    assert_eq!(plain.get_bool("stream"), Some(false));
}

#[test]
fn headers_for_each_provider() {
    let h = request_headers(Some("k"), "openrouter");
    let want: Vec<(String, String)> = [
        ("Content-Type", "application/json"),
        ("Authorization", "Bearer k"),
        ("HTTP-Referer", "https://clif.dev"),
        ("X-Title", "ClifPad"),
    ]
    .iter()
    .map(|(a, b)| (a.to_string(), b.to_string()))
    .collect();
    assert_eq!(h, want);
    assert_eq!(request_headers(None, "openai").len(), 1);
}

#[test]
fn overflow_is_told_from_other_errors() {
    assert!(is_overflow(400, "This model's maximum context length is 8192 tokens"));
    assert!(!is_overflow(401, "bad key"));
}

#[test]
fn values_read_back() {
    let j = Json::object().with_str("a", "x\"\n→").with("b", Json::Bool(true)).with("c", Json::Null);
    let text = json::print(&j);
    assert_eq!(text, "{\"a\":\"x\\\"\\n→\",\"b\":true,\"c\":null}");
    let back = json::parse(&text).expect("reads back");
    assert_eq!(back.get_str("a"), Some("x\"\n→"));
    assert_eq!(back.get_bool("b"), Some(true));
    assert!(back.get("c").map_or(false, |v| v.is_null()));
}

#[test]
fn json_numbers_and_errors() {
    let j = json::parse("{\"n\": 7, \"m\": -3, \"f\": 1.5, \"l\": [1, 2]}").unwrap();
    assert_eq!(j.get_u64("n"), Some(7));
    assert_eq!(j.get_i64("m"), Some(-3));
    assert_eq!(j.get_u64("m"), None);
    assert_eq!(j.get_u64("f"), None);
    assert_eq!(j.get_array("l").map(|v| v.len()), Some(2));
    assert_eq!(j.keys(), vec!["f", "l", "m", "n"]);
    assert!(json::parse("{oops").is_err());
    assert_eq!(json::print(&Json::uint(12)), "12");
    assert_eq!(json::print(&Json::sint(-12)), "-12");
    assert_eq!(json::print(&Json::decimal("2.50").unwrap()), "2.5");
    assert!(Json::decimal("x").is_none());
    assert_eq!(json::print(&j.copy().without("f").without("l")), "{\"m\":-3,\"n\":7}");
}
