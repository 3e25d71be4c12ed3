//! The text that a tool call is answered with.
use vstd::prelude::*;

use crate::json;
use crate::json::Json;
use crate::json::JsonV;

verus! {

/// What a tool that failed tells.
pub open spec fn error_v(code: Seq<char>, message: Seq<char>, retryable: bool) -> JsonV {
    JsonV::Object(
        json::no_members().insert("ok"@, JsonV::Bool(false)).insert(
            "error_code"@,
            JsonV::Text(code),
        ).insert("message"@, JsonV::Text(message)).insert("retryable"@, JsonV::Bool(retryable)),
    )
}

/// The answer of a tool that failed.
pub open spec fn error_reply(code: Seq<char>, message: Seq<char>, retryable: bool) -> Seq<char> {
    json::printed(error_v(code, message, retryable))
}

/// What a tool that succeeded tells.
pub open spec fn success_v(result: JsonV) -> JsonV {
    JsonV::Object(
        json::no_members().insert("ok"@, JsonV::Bool(true)).insert("result"@, result),
    )
}

/// The answer of a tool that succeeded.
pub open spec fn success_reply(result: JsonV) -> Seq<char> {
    json::printed(success_v(result))
}

/// A tool that failed, whatever the message holds: the answer reads back as what it tells.
pub fn tool_error(error_code: &str, message: &str, retryable: bool) -> (r: String)
    ensures
        r@ == error_reply(error_code@, message@, retryable),
        json::reads_as(r@, error_v(error_code@, message@, retryable)),
{
    let j = Json::object().with("ok", Json::Bool(false)).with_str(
        "error_code",
        error_code,
    ).with_str("message", message).with("retryable", Json::Bool(retryable));
    json::print(&j)
}

pub fn tool_success(result: Json) -> (r: String)
    ensures
        r@ == success_reply(result@),
{
    let j = Json::object().with("ok", Json::Bool(true)).with("result", result);
    json::print(&j)
}

/// A tool that succeeded with a text, whatever it holds: the answer reads back as what it tells.
pub fn tool_text(result: &str) -> (r: String)
    ensures
        r@ == success_reply(JsonV::Text(result@)),
        json::reads_as(r@, success_v(JsonV::Text(result@))),
{
    let j = Json::object().with("ok", Json::Bool(true)).with_str("result", result);
    json::print(&j)
}

/// What a tool answers says whether it succeeded, and with what, or why it failed.
pub proof fn law_answers(code: Seq<char>, message: Seq<char>, retryable: bool, result: JsonV)
    ensures
        error_reply(code, message, retryable) == json::printed(error_v(code, message, retryable)),
        error_v(code, message, retryable).get_bool("ok"@) == Some(false),
        error_v(code, message, retryable).get_text("error_code"@) == Some(code),
        error_v(code, message, retryable).get_text("message"@) == Some(message),
        error_v(code, message, retryable).get_bool("retryable"@) == Some(retryable),
        success_reply(result) == json::printed(success_v(result)),
        success_v(result).get_bool("ok"@) == Some(true),
        success_v(result).get("result"@) == Some(result),
{
    reveal_strlit("ok");
    reveal_strlit("error_code");
    reveal_strlit("message");
    reveal_strlit("retryable");
    reveal_strlit("result");
    assert("ok"@.len() == 2
        && "error_code"@.len() == 10
        && "message"@.len() == 7
        && "retryable"@.len() == 9
        && "result"@.len() == 6);
}

} // verus!
