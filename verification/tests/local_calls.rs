use clif_pad::gemma4::{parse_gemma4_tool_calls, read_scalar};
use clif_pad::json::Json;
use clif_pad::local_calls::{extract_tool_blocks, parse_local_tool_calls};

#[test]
fn parses_canonical_tool_call() {
    let calls = parse_local_tool_calls(
        "<tool_call>\n{\"name\": \"read_file\", \"arguments\": {\"path\": \"a.rs\"}}\n</tool_call>",
    );
    assert_eq!(calls.len(), 1);
    assert_eq!(calls[0].name, "read_file");
    assert_eq!(calls[0].args.get_str("path"), Some("a.rs"));
}

#[test]
fn parses_unterminated_tool_call() {
    let calls =
        parse_local_tool_calls("<tool_call>\n{\"name\": \"list_files\", \"arguments\": {}}");
    assert_eq!(calls.len(), 1);
    assert_eq!(calls[0].name, "list_files");
}

#[test]
fn parses_stringified_arguments() {
    let calls = parse_local_tool_calls(
        r#"<tool_call>{"name":"read_file","arguments":"{\"path\":\"b.rs\"}"}</tool_call>"#,
    );
    assert_eq!(calls.len(), 1);
    assert_eq!(calls[0].args.get_str("path"), Some("b.rs"));
}

#[test]
fn parses_fenced_json_fallback() {
    let calls = parse_local_tool_calls(
        "Sure:\n```json\n{\"name\": \"search\", \"arguments\": {\"query\": \"foo\"}}\n```",
    );
    assert_eq!(calls.len(), 1);
    assert_eq!(calls[0].name, "search");
    assert_eq!(calls[0].args.get_str("query"), Some("foo"));
}

#[test]
fn plain_prose_yields_no_tool_calls() {
    assert!(parse_local_tool_calls("The bug is in main.rs, on line 12.").is_empty());
}

#[test]
fn malformed_tool_call_is_ignored() {
    assert!(parse_local_tool_calls("<tool_call>{not json}</tool_call>").is_empty());
}

#[test]
fn parses_back_to_back_tool_calls() {
    let calls = parse_local_tool_calls(
        "<tool_call>{\"name\":\"read_file\",\"arguments\":{\"path\":\"a\"}}</tool_call>\
         <tool_call>{\"name\":\"read_file\",\"arguments\":{\"path\":\"b\"}}</tool_call>",
    );
    assert_eq!(calls.len(), 2);
    assert_eq!(calls[1].args.get_str("path"), Some("b"));
}

#[test]
fn blocks_are_taken_in_order() {
    let blocks = extract_tool_blocks("a<tool_call> x </tool_call>b<tool_call>y");
    assert_eq!(blocks, vec!["x".to_string(), "y".to_string()]);
}

#[test]
fn parses_native_gemma4_tool_call() {
    let text = "<|tool_call>call:read_file{path:<|\"|>src/main.rs<|\"|>,limit:20}<tool_call|>";
    let calls = parse_gemma4_tool_calls(text);
    assert_eq!(calls.len(), 1);
    assert_eq!(calls[0].0, "read_file");
    assert_eq!(calls[0].1.get_str("path"), Some("src/main.rs"));
    assert_eq!(calls[0].1.get_i64("limit"), Some(20));
}

#[test]
fn parses_real_world_todo_write_call() {
    let text = "<|tool_call>call:todo_write{todos:[{content:<|\"|>Plan the site<|\"|>,\
                id:<|\"|>plan<|\"|>,status:<|\"|>in_progress<|\"|>}]}<tool_call|>";
    let calls = parse_gemma4_tool_calls(text);
    assert_eq!(calls.len(), 1);
    assert_eq!(calls[0].0, "todo_write");
    let todos = calls[0].1.get_array("todos").expect("todos array");
    assert_eq!(todos.len(), 1);
    assert_eq!(todos[0].get_str("content"), Some("Plan the site"));
    assert_eq!(todos[0].get_str("status"), Some("in_progress"));
}

#[test]
fn parses_content_with_quotes_and_braces() {
    let text = "<|tool_call>call:write_file{path:<|\"|>a.html<|\"|>,\
                content:<|\"|><div class=\"x\">{hi}\nline2</div><|\"|>}<tool_call|>";
    let calls = parse_gemma4_tool_calls(text);
    assert_eq!(calls.len(), 1);
    assert_eq!(calls[0].1.get_str("content"), Some("<div class=\"x\">{hi}\nline2</div>"));
}

#[test]
fn parses_booleans_and_unterminated_calls() {
    let calls = parse_gemma4_tool_calls("<|tool_call>call:search{deep:true,n:3}");
    assert_eq!(calls.len(), 1);
    assert_eq!(calls[0].1.get_bool("deep"), Some(true));
    assert_eq!(calls[0].1.get_i64("n"), Some(3));
}

#[test]
fn prose_yields_no_calls() {
    assert!(parse_gemma4_tool_calls("Sure, here's the plan.").is_empty());
}

#[test]
fn scalars_of_every_kind() {
    let calls = parse_gemma4_tool_calls(
        "<|tool_call>call:t{a:false,b:null,c:-4,d:2.5,e:word,f:[1,2]}<tool_call|>",
    );
    assert_eq!(calls.len(), 1);
    let args = &calls[0].1;
    assert_eq!(args.get_bool("a"), Some(false));
    assert!(args.get("b").map_or(false, |v| v.is_null()));
    assert_eq!(args.get_i64("c"), Some(-4));
    assert_eq!(clif_pad::json::print(args.get("d").unwrap()), "2.5");
    assert_eq!(args.get_str("e"), Some("word"));
    assert_eq!(args.get_array("f").map(|v| v.len()), Some(2));
}

#[test]
fn a_scalar_that_is_no_number_is_text() {
    assert_eq!(read_scalar("abc", None).as_str(), Some("abc"));
    assert_eq!(read_scalar("true", None).as_bool(), Some(true));
    assert!(matches!(read_scalar("null", None), Json::Null));
}
