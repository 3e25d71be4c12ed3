use clif_pad::dialect::Dialect;
use clif_pad::filter::ToolCallStreamFilter;

/// Feeds text through the filter one char at a time, which splits `<tool_call>` across as many
/// pieces as can be.
fn stream_by_char(text: &str) -> String {
    let mut f = ToolCallStreamFilter::new(
        vec!["<tool_call>", "<|tool_call>"],
        vec![("<|channel>", "<channel|>"), ("<think>", "</think>")],
    );
    let mut shown = String::new();
    for ch in text.chars() {
        if let Some(v) = f.push(&ch.to_string()) {
            shown.push_str(&v);
        }
    }
    if let Some(tail) = f.finish() {
        shown.push_str(&tail);
    }
    shown
}

fn stream_by(text: &str, sizes: &[usize]) -> String {
    let mut f = ToolCallStreamFilter::new(
        vec!["<tool_call>", "<|tool_call>"],
        vec![("<|channel>", "<channel|>"), ("<think>", "</think>")],
    );
    let chars: Vec<char> = text.chars().collect();
    let mut shown = String::new();
    let mut at = 0;
    let mut k = 0;
    while at < chars.len() {
        let end = (at + sizes[k % sizes.len()]).min(chars.len());
        let piece: String = chars[at..end].iter().collect();
        if let Some(v) = f.push(&piece) {
            shown.push_str(&v);
        }
        at = end;
        k += 1;
    }
    if let Some(tail) = f.finish() {
        shown.push_str(&tail);
    }
    shown
}

#[test]
fn filter_hides_thought_channel_and_resumes() {
    let shown =
        stream_by_char("<|channel>thought\nI will plan the site.<channel|>Here is the plan.");
    assert_eq!(shown, "Here is the plan.");
}

#[test]
fn filter_hides_think_tags() {
    assert_eq!(stream_by_char("<think>hmm</think>Answer."), "Answer.");
}

#[test]
fn filter_hides_thought_then_tool_call() {
    let shown = stream_by_char(
        "<|channel>thought\nplanning<channel|>Creating the file.\
         <|tool_call>call:write_file{path:<|\"|>a.html<|\"|>}<tool_call|>",
    );
    assert_eq!(shown, "Creating the file.");
}

#[test]
fn filter_hides_unterminated_thought() {
    assert_eq!(stream_by_char("<|channel>thought\nstill thinking"), "");
}

#[test]
fn filter_hides_tool_markup_but_keeps_prose() {
    let shown = stream_by_char("Let me look.<tool_call>\n{\"name\":\"read_file\"}\n</tool_call>");
    assert_eq!(shown, "Let me look.");
}

#[test]
fn filter_passes_plain_prose_through_untouched() {
    let text = "Here is the answer, no tools needed.";
    assert_eq!(stream_by_char(text), text);
}

#[test]
fn filter_never_leaks_partial_tag() {
    let shown = stream_by_char("done <tool_c");
    assert!(!shown.contains("<tool_c"), "leaked partial tag: {shown:?}");
}

#[test]
fn filter_handles_multibyte_text() {
    let text = "héllo wörld 日本語 →";
    assert_eq!(stream_by_char(text), text);
}

#[test]
fn pieces_do_not_matter() {
    let text = "One <think>a < b</think>two <|channel>x<channel|>three<tool_call>{}";
    let whole = stream_by(text, &[1000]);
    assert_eq!(whole, "One two three");
    assert_eq!(stream_by_char(text), whole);
    assert_eq!(stream_by(text, &[2, 5, 3]), whole);
    assert_eq!(stream_by(text, &[7]), whole);
}

#[test]
fn a_less_than_sign_is_prose() {
    assert_eq!(stream_by_char("if a < b then <tag> ok"), "if a < b then <tag> ok");
}

#[test]
fn chat_shows_what_history_keeps() {
    let text = "<|channel>plan<channel|>Hello there.";
    for d in [Dialect::Gemma4, Dialect::Gemma, Dialect::ChatMl] {
        let mut f = ToolCallStreamFilter::new(d.tool_call_openers(), d.hidden_spans());
        let mut shown = f.push(text).unwrap_or_default();
        shown.push_str(&f.finish().unwrap_or_default());
        assert_eq!(shown.trim(), d.strip_hidden(text).trim());
    }
}
