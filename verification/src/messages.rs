//! The messages of a request: how a conversation is opened, and how it is sent.
use vstd::prelude::*;

use crate::json;
use crate::json::Json;
use crate::json::JsonV;
use crate::text;

verus! {

// ---- single messages -----------------------------------------------------------------------

pub open spec fn text_message_v(role: Seq<char>, content: Seq<char>) -> JsonV {
    JsonV::Object(
        json::no_members().insert("role"@, JsonV::Text(role)).insert(
            "content"@,
            JsonV::Text(content),
        ),
    )
}

/// A message with a role and a text.
pub fn text_message(role: &str, content: &str) -> (r: Json)
    ensures
        r@ == text_message_v(role@, content@),
{
    Json::object().with_str("role", role).with_str("content", content)
}

/// The answer to a tool call.
pub open spec fn tool_message_v(id: Seq<char>, content: Seq<char>) -> JsonV {
    JsonV::Object(
        json::no_members().insert("role"@, JsonV::Text("tool"@)).insert(
            "tool_call_id"@,
            JsonV::Text(id),
        ).insert("content"@, JsonV::Text(content)),
    )
}

pub fn tool_message(id: &str, content: &str) -> (r: Json)
    ensures
        r@ == tool_message_v(id@, content@),
{
    Json::object().with_str("role", "tool").with_str("tool_call_id", id).with_str(
        "content",
        content,
    )
}

fn one(j: Json) -> (r: Json)
    ensures
        r@ == JsonV::Array(seq![j@]),
{
    let mut v: Vec<Json> = Vec::new();
    v.push(j);
    let r = Json::Array(v);
    proof {
        assert(r@->Array_0 =~= seq![j@]);
    }
    r
}

/// The message with the static prompt; where the provider caches prompts, it is tagged for
/// that.
pub open spec fn system_message_v(prompt: Seq<char>, caching: bool) -> JsonV {
    if caching {
        JsonV::Object(
            json::no_members().insert("role"@, JsonV::Text("system"@)).insert(
                "content"@,
                JsonV::Array(
                    seq![
                        JsonV::Object(
                            json::no_members().insert("type"@, JsonV::Text("text"@)).insert(
                                "text"@,
                                JsonV::Text(prompt),
                            ).insert(
                                "cache_control"@,
                                JsonV::Object(
                                    json::no_members().insert(
                                        "type"@,
                                        JsonV::Text("ephemeral"@),
                                    ),
                                ),
                            ),
                        ),
                    ],
                ),
            ),
        )
    } else {
        text_message_v("system"@, prompt)
    }
}

pub fn system_message(prompt: &str, caching: bool) -> (r: Json)
    ensures
        r@ == system_message_v(prompt@, caching),
{
    if caching {
        let part = Json::object().with_str("type", "text").with_str("text", prompt).with(
            "cache_control",
            Json::object().with_str("type", "ephemeral"),
        );
        Json::object().with_str("role", "system").with("content", one(part))
    } else {
        text_message("system", prompt)
    }
}

/// The most bytes of an attached file that are sent.
pub const ATTACHMENT_CAP: usize = 30000;

pub open spec fn attachment_v(path: Seq<char>, content: Seq<char>) -> JsonV {
    let shown = if text::byte_len(content) > ATTACHMENT_CAP {
        content.take(text::chars_within(content, ATTACHMENT_CAP as nat) as int)
            + "... (truncated)"@
    } else {
        content
    };
    text_message_v("system"@, "Content of "@ + path + ":\n```\n"@ + shown + "\n```"@)
}

/// A cut of the attached file does not split a character.
pub open spec fn attachment_fits(content: Seq<char>) -> bool {
    text::byte_len(content) > ATTACHMENT_CAP ==> text::is_boundary(content, ATTACHMENT_CAP as nat)
}

pub fn can_attach(content: &str) -> (r: bool)
    ensures
        r == attachment_fits(content@),
{
    text::str_bytes(content) <= ATTACHMENT_CAP || text::split_bytes(
        content,
        ATTACHMENT_CAP,
    ).is_some()
}

/// The message with an attached file.
pub fn attachment_message(path: &str, content: &str) -> (r: Json)
    requires
        attachment_fits(content@),
    ensures
        r@ == attachment_v(path@, content@),
{
    let shown = if text::str_bytes(content) > ATTACHMENT_CAP {
        match text::split_bytes(content, ATTACHMENT_CAP) {
            Some(parts) => text::cat(parts.0.as_str(), "... (truncated)"),
            None => text::copy(content),
        }
    } else {
        text::copy(content)
    };
    let mut s = text::copy("Content of ");
    s.append(path);
    s.append(":\n```\n");
    s.append(shown.as_str());
    s.append("\n```");
    text_message("system", s.as_str())
}

// ---- the user's messages ---------------------------------------------------------------------

/// A message as the editor sends it.
pub struct ChatMessage {
    pub role: String,
    pub content: String,
    pub tool_call_id: Option<String>,
    pub name: Option<String>,
    pub tool_calls: Option<Vec<Json>>,
    pub images: Option<Vec<String>>,
}

pub open spec fn non_empty(s: Option<String>) -> Option<Seq<char>> {
    match s {
        Some(t) => if t@.len() > 0 {
            Some(t@)
        } else {
            None
        },
        None => None,
    }
}

/// Where the first comma stands.
pub open spec fn comma_of(url: Seq<char>) -> Option<int> {
    text::find(url, ","@)
}

/// The part of a data URL between the scheme and the comma.
pub open spec fn header_of(url: Seq<char>) -> Seq<char> {
    url.subrange(text::chars_within(url, 5) as int, comma_of(url)->Some_0)
}

/// A data URL with a comma has a scheme of five bytes before it.
pub open spec fn image_ok(url: Seq<char>) -> bool {
    comma_of(url) matches Some(c) ==> text::is_boundary(url, 5) && text::chars_within(url, 5) <= c
}

/// An image with its media type and its data alone.
pub open spec fn image_part(url: Seq<char>) -> JsonV {
    let c = comma_of(url)->Some_0;
    let h = header_of(url);
    let media = h.take(text::until(h, ';') as int);
    JsonV::Object(
        json::no_members().insert("type"@, JsonV::Text("image_url"@)).insert(
            "image_url"@,
            JsonV::Object(
                json::no_members().insert(
                    "url"@,
                    JsonV::Text("data:"@ + media + ";base64,"@ + url.skip(c + 1)),
                ),
            ),
        ),
    )
}

/// The parts of a message: its text, then its images.
pub open spec fn content_parts(content: Seq<char>, images: Seq<Seq<char>>) -> Seq<JsonV>
    decreases images.len(),
{
    if images.len() == 0 {
        seq![
            JsonV::Object(
                json::no_members().insert("type"@, JsonV::Text("text"@)).insert(
                    "text"@,
                    JsonV::Text(content),
                ),
            ),
        ]
    } else {
        let before = content_parts(content, images.drop_last());
        if comma_of(images.last()) is Some {
            before.push(image_part(images.last()))
        } else {
            before
        }
    }
}

pub open spec fn has_images(m: ChatMessage) -> bool {
    m.images matches Some(v) && v@.len() > 0
}

/// The images of a message can be read.
pub open spec fn images_ok(m: ChatMessage) -> bool {
    m.images matches Some(v) ==> forall|i: int|
        0 <= i < v@.len() ==> image_ok((#[trigger] v@[i])@)
}

/// The images of the message are part of what is sent.
pub open spec fn shows_images(m: ChatMessage) -> bool {
    m.role@ != "tool"@ && !(m.role@ == "assistant"@ && has_calls(m)) && has_images(m)
}

/// The assistant message carries tool calls.
pub open spec fn has_calls(m: ChatMessage) -> bool {
    m.tool_calls matches Some(v) && v@.len() > 0
}

/// The message as it is sent; one that answers a tool call without naming it is left out.
pub open spec fn chat_v(m: ChatMessage) -> Option<JsonV> {
    if m.role@ == "tool"@ {
        match non_empty(m.tool_call_id) {
            None => None,
            Some(id) => {
                let entry = json::no_members().insert("role"@, JsonV::Text("tool"@)).insert(
                    "tool_call_id"@,
                    JsonV::Text(id),
                ).insert("content"@, JsonV::Text(m.content@));
                match non_empty(m.name) {
                    Some(n) => Some(JsonV::Object(entry.insert("name"@, JsonV::Text(n)))),
                    None => Some(JsonV::Object(entry)),
                }
            },
        }
    } else if m.role@ == "assistant"@ && has_calls(m) {
        Some(
            JsonV::Object(
                json::no_members().insert("role"@, JsonV::Text("assistant"@)).insert(
                    "content"@,
                    if m.content@.len() == 0 {
                        JsonV::Null
                    } else {
                        JsonV::Text(m.content@)
                    },
                ).insert("tool_calls"@, JsonV::Array(json::views(m.tool_calls->Some_0@))),
            ),
        )
    } else {
        Some(
            JsonV::Object(
                json::no_members().insert("role"@, JsonV::Text(m.role@)).insert(
                    "content"@,
                    if has_images(m) {
                        JsonV::Array(
                            content_parts(m.content@, text::texts(m.images->Some_0@)),
                        )
                    } else {
                        JsonV::Text(m.content@)
                    },
                ),
            ),
        )
    }
}

fn some_text(s: &Option<String>) -> (r: Option<&str>)
    ensures
        match r {
            Some(t) => non_empty(*s) == Some(t@),
            None => non_empty(*s) is None,
        },
{
    match s {
        Some(t) => if t.as_str().is_empty() {
            None
        } else {
            Some(t.as_str())
        },
        None => None,
    }
}

fn find_comma(v: &Vec<char>) -> (r: Option<usize>)
    ensures
        match r {
            Some(i) => comma_of(v@) == Some(i as int) && i < v@.len(),
            None => comma_of(v@) is None,
        },
{
    let comma = text::to_chars(",");
    proof {
        reveal_strlit(",");
    }
    let r = text::find_chars(v, &comma, 0);
    r
}

/// Whether the images of a message can be read.
pub fn image_is_ok(url: &str) -> (r: bool)
    ensures
        r == image_ok(url@),
{
    let v = text::to_chars(url);
    match find_comma(&v) {
        Some(c) => match text::split_bytes(url, 5) {
            Some(_) => text::count_within(&v, 5) <= c,
            None => false,
        },
        None => true,
    }
}

fn image_json(url: &str) -> (r: Option<Json>)
    requires
        image_ok(url@),
    ensures
        match r {
            Some(j) => comma_of(url@) is Some && j@ == image_part(url@),
            None => comma_of(url@) is None,
        },
{
    let v = text::to_chars(url);
    let c = match find_comma(&v) {
        Some(c) => c,
        None => {
            return None;
        },
    };
    let total = v.len();
    let from = text::count_within(&v, 5);
    let h = text::to_chars(text::substring(&v, from, c).as_str());
    let semi = text::until_char(&h, ';', 0);
    let media = text::substring(&h, 0, semi);
    let data = text::substring(&v, c + 1, total);
    proof {
        assert(h@.skip(0) =~= h@);
        assert(h@ =~= header_of(url@));
        assert(media@ =~= h@.take(semi as int));
        assert(data@ =~= url@.skip(c + 1));
    }
    let mut s = text::copy("data:");
    s.append(media.as_str());
    s.append(";base64,");
    s.append(data.as_str());
    Some(
        Json::object().with_str("type", "image_url").with(
            "image_url",
            Json::object().with_str("url", s.as_str()),
        ),
    )
}

fn parts_json(content: &str, images: &Vec<String>) -> (r: Json)
    requires
        forall|i: int| 0 <= i < images@.len() ==> image_ok((#[trigger] images@[i])@),
    ensures
        r@ == JsonV::Array(content_parts(content@, text::texts(images@))),
{
    let ghost all = text::texts(images@);
    let mut parts: Vec<Json> = Vec::new();
    parts.push(Json::object().with_str("type", "text").with_str("text", content));
    let mut i: usize = 0;
    proof {
        assert(all.take(0) =~= Seq::<Seq<char>>::empty());
        assert(json::views(parts@) =~= content_parts(content@, all.take(0)));
    }
    while i < images.len()
        invariant
            all == text::texts(images@),
            i <= images@.len(),
            forall|i: int| 0 <= i < images@.len() ==> image_ok((#[trigger] images@[i])@),
            json::views(parts@) == content_parts(content@, all.take(i as int)),
        decreases images.len() - i,
    {
        proof {
            assert(all.take(i as int + 1).drop_last() =~= all.take(i as int));
            assert(all.take(i as int + 1).last() == images@[i as int]@);
        }
        let ghost before = parts@;
        if let Some(part) = image_json(images[i].as_str()) {
            parts.push(part);
            proof {
                assert(json::views(parts@) =~= json::views(before).push(part@));
            }
        }
        i = i + 1;
    }
    proof {
        assert(all.take(i as int) =~= all);
    }
    let r = Json::Array(parts);
    proof {
        assert(r@->Array_0 =~= json::views(parts@));
    }
    r
}

fn copy_all(v: &Vec<Json>) -> (r: Json)
    ensures
        r@ == JsonV::Array(json::views(v@)),
{
    let mut out: Vec<Json> = Vec::new();
    let mut i: usize = 0;
    while i < v.len()
        invariant
            i == out@.len(),
            i <= v@.len(),
            forall|k: int| 0 <= k < i ==> (#[trigger] out@[k])@ == v@[k]@,
        decreases v.len() - i,
    {
        out.push(v[i].copy());
        i = i + 1;
    }
    let r = Json::Array(out);
    proof {
        assert(r@->Array_0 =~= json::views(v@));
    }
    r
}

/// The images of the message can be read, as far as they are sent.
pub fn can_send(m: &ChatMessage) -> (r: bool)
    ensures
        r == (shows_images(*m) ==> images_ok(*m)),
{
    if text::str_eq(m.role.as_str(), "tool") {
        return true;
    }
    if text::str_eq(m.role.as_str(), "assistant") {
        if let Some(calls) = &m.tool_calls {
            if calls.len() > 0 {
                return true;
            }
        }
    }
    if let Some(images) = &m.images {
        let mut i: usize = 0;
        while i < images.len()
            invariant
                m.images == Some(*images),
                images@.len() > 0 ==> shows_images(*m),
                i <= images@.len(),
                forall|k: int| 0 <= k < i ==> image_ok((#[trigger] images@[k])@),
            decreases images.len() - i,
        {
            if !image_is_ok(images[i].as_str()) {
                proof {
                    assert(!image_ok(images@[i as int]@));
                }
                return false;
            }
            i = i + 1;
        }
    }
    true
}

/// One of the user's messages, in the form that the request needs.
pub fn chat_message(m: &ChatMessage) -> (r: Option<Json>)
    requires
        shows_images(*m) ==> images_ok(*m),
    ensures
        match r {
            Some(j) => chat_v(*m) == Some(j@),
            None => chat_v(*m) is None,
        },
{
    if text::str_eq(m.role.as_str(), "tool") {
        let id = match some_text(&m.tool_call_id) {
            Some(s) => s,
            None => {
                return None;
            },
        };
        let entry = tool_message(id, m.content.as_str());
        return match some_text(&m.name) {
            Some(n) => Some(entry.with_str("name", n)),
            None => Some(entry),
        };
    }
    if text::str_eq(m.role.as_str(), "assistant") {
        if let Some(calls) = &m.tool_calls {
            if calls.len() > 0 {
                let content = if m.content.as_str().is_empty() {
                    Json::Null
                } else {
                    Json::string(m.content.as_str())
                };
                return Some(
                    Json::object().with_str("role", "assistant").with("content", content).with(
                        "tool_calls",
                        copy_all(calls),
                    ),
                );
            }
        }
    }
    let content = match &m.images {
        Some(images) => if images.len() > 0 {
            parts_json(m.content.as_str(), images)
        } else {
            Json::string(m.content.as_str())
        },
        None => Json::string(m.content.as_str()),
    };
    Some(Json::object().with_str("role", m.role.as_str()).with("content", content))
}

// ---- requests ----------------------------------------------------------------------------------

/// A user message with images is among the messages.
pub open spec fn has_vision(conv: Seq<JsonV>) -> bool {
    exists|i: int|
        0 <= i < conv.len() && (#[trigger] conv[i]).get_text("role"@) == Some("user"@)
            && conv[i].get_items("content"@) is Some
}

pub fn conversation_has_vision(conversation: &Vec<Json>) -> (r: bool)
    ensures
        r == has_vision(json::views(conversation@)),
{
    let ghost all = json::views(conversation@);
    let mut i: usize = 0;
    while i < conversation.len()
        invariant
            all == json::views(conversation@),
            i <= conversation@.len(),
            forall|j: int|
                0 <= j < i ==> !((#[trigger] all[j]).get_text("role"@) == Some("user"@)
                    && all[j].get_items("content"@) is Some),
        decreases conversation.len() - i,
    {
        let m = &conversation[i];
        let is_user = match m.get_str("role") {
            Some(r) => text::str_eq(r, "user"),
            None => false,
        };
        proof {
            assert(all[i as int] == m@);
        }
        if is_user && m.get_array("content").is_some() {
            return true;
        }
        i = i + 1;
    }
    false
}

pub open spec fn with_transforms(
    body: Map<Seq<char>, JsonV>,
    provider: Seq<char>,
) -> JsonV {
    if provider == "openrouter"@ {
        JsonV::Object(
            body.insert("transforms"@, JsonV::Array(seq![JsonV::Text("middle-out"@)])),
        )
    } else {
        JsonV::Object(body)
    }
}

/// The body of a streamed request.
pub open spec fn request_v(
    model: Seq<char>,
    conv: Seq<JsonV>,
    tools: Seq<JsonV>,
    vision: bool,
    provider: Seq<char>,
) -> JsonV {
    with_transforms(
        json::no_members().insert("model"@, JsonV::Text(model)).insert(
            "messages"@,
            JsonV::Array(conv),
        ).insert("tools"@, JsonV::Array(tools)).insert(
            "tool_choice"@,
            JsonV::Text(
                if vision {
                    "none"@
                } else {
                    "auto"@
                },
            ),
        ).insert("stream"@, JsonV::Bool(true)).insert(
            "stream_options"@,
            JsonV::Object(json::no_members().insert("include_usage"@, JsonV::Bool(true))),
        ),
        provider,
    )
}

/// The body of the request that follows a compaction.
pub open spec fn retry_v(
    model: Seq<char>,
    conv: Seq<JsonV>,
    tools: Seq<JsonV>,
    provider: Seq<char>,
) -> JsonV {
    with_transforms(
        json::no_members().insert("model"@, JsonV::Text(model)).insert(
            "messages"@,
            JsonV::Array(conv),
        ).insert("tools"@, JsonV::Array(tools)).insert("stream"@, JsonV::Bool(true)),
        provider,
    )
}

/// The body of a request that is answered at once.
pub open spec fn plain_request_v(model: Seq<char>, conv: Seq<JsonV>, tools: Seq<JsonV>) -> JsonV {
    JsonV::Object(
        json::no_members().insert("model"@, JsonV::Text(model)).insert(
            "messages"@,
            JsonV::Array(conv),
        ).insert("tools"@, JsonV::Array(tools)).insert("stream"@, JsonV::Bool(false)),
    )
}

fn transform(body: Json, provider: &str) -> (r: Json)
    requires
        body@ is Object,
    ensures
        r@ == with_transforms(body@->Object_0, provider@),
{
    if text::str_eq(provider, "openrouter") {
        body.with("transforms", one(Json::string("middle-out")))
    } else {
        body
    }
}

pub fn request_body(
    model: &str,
    conversation: &Vec<Json>,
    tools: &Vec<Json>,
    vision: bool,
    provider: &str,
) -> (r: Json)
    ensures
        r@ == request_v(
            model@,
            json::views(conversation@),
            json::views(tools@),
            vision,
            provider@,
        ),
{
    let choice = if vision {
        "none"
    } else {
        "auto"
    };
    let body = Json::object().with_str("model", model).with(
        "messages",
        copy_all(conversation),
    ).with("tools", copy_all(tools)).with_str("tool_choice", choice).with(
        "stream",
        Json::Bool(true),
    ).with("stream_options", Json::object().with("include_usage", Json::Bool(true)));
    transform(body, provider)
}

pub fn retry_body(
    model: &str,
    conversation: &Vec<Json>,
    tools: &Vec<Json>,
    provider: &str,
) -> (r: Json)
    ensures
        r@ == retry_v(model@, json::views(conversation@), json::views(tools@), provider@),
{
    let body = Json::object().with_str("model", model).with(
        "messages",
        copy_all(conversation),
    ).with("tools", copy_all(tools)).with("stream", Json::Bool(true));
    transform(body, provider)
}

pub fn plain_request_body(model: &str, conversation: &Vec<Json>, tools: &Vec<Json>) -> (r: Json)
    ensures
        r@ == plain_request_v(model@, json::views(conversation@), json::views(tools@)),
{
    Json::object().with_str("model", model).with("messages", copy_all(conversation)).with(
        "tools",
        copy_all(tools),
    ).with("stream", Json::Bool(false))
}

pub open spec fn pairs(v: Seq<(String, String)>) -> Seq<(Seq<char>, Seq<char>)> {
    v.map_values(|p: (String, String)| (p.0@, p.1@))
}

/// The headers of a request: its type, the key if there is one, and what the provider asks
/// callers to send.
pub open spec fn headers_v(key: Option<Seq<char>>, provider: Seq<char>) -> Seq<
    (Seq<char>, Seq<char>),
> {
    seq![("Content-Type"@, "application/json"@)] + (match key {
        Some(k) => seq![("Authorization"@, "Bearer "@ + k)],
        None => seq![],
    }) + (if provider == "openrouter"@ {
        seq![("HTTP-Referer"@, "https://clif.dev"@), ("X-Title"@, "ClifPad"@)]
    } else {
        seq![]
    })
}

pub fn request_headers(key: Option<&str>, provider: &str) -> (r: Vec<(String, String)>)
    ensures
        pairs(r@) == headers_v(crate::session::opt_text(key), provider@),
{
    let mut v: Vec<(String, String)> = Vec::new();
    v.push((text::copy("Content-Type"), text::copy("application/json")));
    if let Some(k) = key {
        v.push((text::copy("Authorization"), text::cat("Bearer ", k)));
    }
    if text::str_eq(provider, "openrouter") {
        v.push((text::copy("HTTP-Referer"), text::copy("https://clif.dev")));
        v.push((text::copy("X-Title"), text::copy("ClifPad")));
    }
    proof {
        assert(pairs(v@) =~= headers_v(crate::session::opt_text(key), provider@));
    }
    v
}

/// The server refused a request because the conversation is too long.
pub open spec fn overflow(status: u16, body: Seq<char>) -> bool {
    status == 400 && (text::contains(body, "context_length"@) || text::contains(
        body,
        "too many tokens"@,
    ) || text::contains(body, "maximum context"@))
}

pub fn is_overflow(status: u16, body: &str) -> (r: bool)
    ensures
        r == overflow(status, body@),
{
    status == 400 && (text::str_contains(body, "context_length") || text::str_contains(
        body,
        "too many tokens",
    ) || text::str_contains(body, "maximum context"))
}

// ---- laws ----------------------------------------------------------------------------------------

/// A message holds its role and its content, and the answer to a call names the call.
pub proof fn law_messages(role: Seq<char>, id: Seq<char>, content: Seq<char>)
    ensures
        text_message_v(role, content).get_text("role"@) == Some(role),
        text_message_v(role, content).get_text("content"@) == Some(content),
        tool_message_v(id, content).get_text("role"@) == Some("tool"@),
        tool_message_v(id, content).get_text("tool_call_id"@) == Some(id),
        tool_message_v(id, content).get_text("content"@) == Some(content),
{
    reveal_strlit("role");
    reveal_strlit("tool_call_id");
    reveal_strlit("content");
    assert("role"@.len() == 4
        && "tool_call_id"@.len() == 12
        && "content"@.len() == 7);
}

/// The prompt is sent whole, as a text, or where prompts are cached as the one part, which is
/// tagged for that.
pub proof fn law_prompt_is_sent(prompt: Seq<char>)
    ensures
        system_message_v(prompt, false) == text_message_v("system"@, prompt),
        system_message_v(prompt, true).get_text("role"@) == Some("system"@),
        system_message_v(prompt, true).get_items("content"@) matches Some(parts) && parts.len() == 1
            && parts[0].get_text("type"@) == Some("text"@) && parts[0].get_text("text"@) == Some(
            prompt,
        ) && (parts[0].get("cache_control"@) matches Some(c) && c.get_text("type"@) == Some(
            "ephemeral"@,
        )),
{
    reveal_strlit("role");
    reveal_strlit("content");
    reveal_strlit("type");
    reveal_strlit("text");
    reveal_strlit("cache_control");
    assert("role"@.len() == 4
        && "content"@.len() == 7
        && "type"@.len() == 4
        && "text"@.len() == 4
        && "cache_control"@.len() == 13
        && "role"@[0] == 'r'
        && "type"@[0] == 't'
        && "text"@[0] == 't'
        && "type"@[1] == 'y'
        && "text"@[1] == 'e');
}

/// An attached file is sent with its name, whole or its first 30000 bytes.
pub proof fn law_attachments(path: Seq<char>, content: Seq<char>)
    requires
        attachment_fits(content),
    ensures
        attachment_v(path, content).get_text("role"@) == Some("system"@),
        text::byte_len(content) <= 30000 ==> attachment_v(path, content).get_text("content"@) == Some(
            "Content of "@ + path + ":\n```\n"@ + content + "\n```"@,
        ),
        text::byte_len(content) > 30000 ==> exists|head: Seq<char>, cut: Seq<char>|
            #[trigger] (head + cut) == content && text::byte_len(head) == 30000 && attachment_v(
                path,
                content,
            ).get_text("content"@) == Some(
                "Content of "@ + path + ":\n```\n"@ + (head + "... (truncated)"@) + "\n```"@,
            ),
{
    reveal_strlit("role");
    reveal_strlit("content");
    assert("role"@.len() == 4
        && "content"@.len() == 7);
    if text::byte_len(content) > 30000 {
        let k = text::chars_within(content, 30000) as int;
        text::lemma_chars_within(content, 30000);
        assert(content.take(k) + content.skip(k) =~= content);
    }
}

/// What an image is sent as: its media type, up to the first semicolon of the header, and its data.
pub proof fn law_images(scheme: Seq<char>, media: Seq<char>, rest: Seq<char>, data: Seq<char>)
    requires
        text::byte_len(scheme) == 5,
        scheme.len() == 5,
        rest.len() > 0 ==> rest[0] == ';',
        forall|i: int| 0 <= i < media.len() ==> #[trigger] media[i] != ';',
        !(scheme + media + rest).contains(','),
    ensures
        ({
            let url = scheme + media + rest + seq![','] + data;
            &&& comma_of(url) is Some
            &&& image_part(url).get_text("type"@) == Some("image_url"@)
            &&& image_part(url).get("image_url"@) matches Some(u) && u.get_text("url"@) == Some(
                "data:"@ + media + ";base64,"@ + data,
            )
        }),
{
    reveal_strlit("type");
    reveal_strlit("image_url");
    reveal_strlit("url");
    assert("type"@.len() == 4
        && "image_url"@.len() == 9
        && "url"@.len() == 3);
    reveal_strlit(",");
    let front = scheme + media + rest;
    let url = scheme + media + rest + seq![','] + data;
    let c = front.len() as int;
    assert(url =~= front + seq![','] + data);
    assert(url.subrange(c, c + 1) =~= ","@);
    assert forall|j: int| 0 <= j < c implies !text::occurs_at(url, ","@, j) by {
        if text::occurs_at(url, ","@, j) {
            assert(url.subrange(j, j + 1)[0] == front[j]);
            assert(front.contains(front[j]));
        }
    }
    text::lemma_find_is(url, ","@, 0, c);
    assert(url.take(5) =~= scheme);
    text::lemma_byte_len_take_strict(url, 5, 6);
    text::lemma_chars_within_is(url, 5, 5);
    let h = header_of(url);
    assert(h =~= media + rest);
    lemma_until_semicolon(media, rest);
    assert(h.take(media.len() as int) =~= media);
    assert(url.skip(c + 1) =~= data);
}

proof fn lemma_until_semicolon(media: Seq<char>, rest: Seq<char>)
    requires
        rest.len() > 0 ==> rest[0] == ';',
        forall|i: int| 0 <= i < media.len() ==> #[trigger] media[i] != ';',
    ensures
        text::until(media + rest, ';') == media.len(),
    decreases media.len(),
{
    let h = media + rest;
    if media.len() == 0 {
        if rest.len() > 0 {
            assert(h[0] == ';');
        }
    } else {
        assert(h[0] == media[0]);
        let tail = media.drop_first();
        assert forall|i: int| 0 <= i < tail.len() implies #[trigger] tail[i] != ';' by {
            assert(media[i + 1] != ';');
        }
        lemma_until_semicolon(tail, rest);
        assert(h.drop_first() =~= tail + rest);
    }
}

/// The parts of a message with images: the text first, and then every image with a comma in it, in
/// order.
pub proof fn law_image_parts(content: Seq<char>, images: Seq<Seq<char>>)
    ensures
        content_parts(content, images).len() > 0,
        content_parts(content, images)[0].get_text("type"@) == Some("text"@),
        content_parts(content, images)[0].get_text("text"@) == Some(content),
        content_parts(content, images).skip(1) == images.filter(
            |u: Seq<char>| text::contains(u, ","@),
        ).map_values(|u: Seq<char>| image_part(u)),
    decreases images.len(),
{
    reveal_strlit("type");
    reveal_strlit("text");
    assert("type"@.len() == 4
        && "text"@.len() == 4
        && "type"@[1] == 'y'
        && "text"@[1] == 'e');
    let p = |u: Seq<char>| text::contains(u, ","@);
    let f = |u: Seq<char>| image_part(u);
    let all = content_parts(content, images);
    if images.len() == 0 {
        reveal(Seq::filter);
        assert(all.skip(1) =~= images.filter(p).map_values(f));
    } else {
        let front = images.drop_last();
        let u = images.last();
        law_image_parts(content, front);
        assert(images =~= front.push(u));
        front.lemma_filter_push(u, p);
        text::lemma_contains_find(u, ","@);
        let before = content_parts(content, front);
        if p(u) {
            assert(all == before.push(image_part(u)));
            assert(all.skip(1) =~= before.skip(1).push(image_part(u)));
            assert(front.filter(p).push(u).map_values(f) =~= front.filter(p).map_values(f).push(
                f(u),
            ));
        }
        assert(all[0] == before[0]);
    }
}

/// What becomes of a message of the user's history: an answer to a call that does not name it is
/// left out; every other message keeps its role and its content, an answer also the call it names
/// and the tool, and an assistant's message its calls.
pub proof fn law_history_is_kept(m: ChatMessage)
    ensures
        chat_v(m) is None <==> m.role@ == "tool"@ && (m.tool_call_id matches Some(id) ==> id@.len()
            == 0),
        chat_v(m) matches Some(v) ==> v.get_text("role"@) == Some(m.role@),
        m.role@ == "tool"@ ==> (chat_v(m) matches Some(v) ==> v.get_text("content"@) == Some(
            m.content@,
        ) && v.get_text("tool_call_id"@) == Some(m.tool_call_id->Some_0@) && ((m.name matches Some(n)
            && n@.len() > 0) ==> v.get_text("name"@) == Some(m.name->Some_0@))),
        m.role@ == "assistant"@ && (m.tool_calls matches Some(c) && c@.len() > 0) ==> (chat_v(
            m,
        ) matches Some(v) && v.get_items("tool_calls"@) == Some(json::views(m.tool_calls->Some_0@))
            && (m.content@.len() == 0 ==> v.get("content"@) == Some(JsonV::Null)) && (m.content@.len()
            > 0 ==> v.get_text("content"@) == Some(m.content@))),
        m.role@ != "tool"@ && !(m.role@ == "assistant"@ && (m.tool_calls matches Some(c) && c@.len()
            > 0)) ==> (chat_v(m) matches Some(v) && ((m.images matches Some(i) && i@.len() > 0)
            ==> v.get_items("content"@) == Some(
            content_parts(m.content@, text::texts(m.images->Some_0@)),
        )) && (!(m.images matches Some(i) && i@.len() > 0) ==> v.get_text("content"@) == Some(
            m.content@,
        ))),
{
    reveal_strlit("role");
    reveal_strlit("content");
    reveal_strlit("tool_call_id");
    reveal_strlit("name");
    reveal_strlit("tool_calls");
    reveal_strlit("tool");
    reveal_strlit("assistant");
    assert("role"@.len() == 4
        && "content"@.len() == 7
        && "tool_call_id"@.len() == 12
        && "name"@.len() == 4
        && "tool_calls"@.len() == 10
        && "tool"@.len() == 4
        && "assistant"@.len() == 9
        && "role"@[0] == 'r'
        && "name"@[0] == 'n'
        && "tool"@[0] == 't');
}

/// A request holds the model, the whole conversation and the tools; it is streamed, and the model
/// may not call tools where there are images to look at. OpenRouter is asked to shorten what does
/// not fit.
pub proof fn law_requests(
    model: Seq<char>,
    conv: Seq<JsonV>,
    tools: Seq<JsonV>,
    vision: bool,
    provider: Seq<char>,
)
    ensures
        ({
            let b = request_v(model, conv, tools, vision, provider);
            let r = retry_v(model, conv, tools, provider);
            let p = plain_request_v(model, conv, tools);
            &&& b.get_text("model"@) == Some(model)
            &&& b.get_items("messages"@) == Some(conv)
            &&& b.get_items("tools"@) == Some(tools)
            &&& b.get_text("tool_choice"@) == Some(
                if vision {
                    "none"@
                } else {
                    "auto"@
                },
            )
            &&& b.get_bool("stream"@) == Some(true)
            &&& (b.get("stream_options"@) matches Some(o) && o.get_bool("include_usage"@) == Some(
                true,
            ))
            &&& b.get("transforms"@) is Some <==> provider == "openrouter"@
            &&& r.get_text("model"@) == Some(model)
            &&& r.get_items("messages"@) == Some(conv)
            &&& r.get_items("tools"@) == Some(tools)
            &&& r.get_bool("stream"@) == Some(true)
            &&& r.get("transforms"@) is Some <==> provider == "openrouter"@
            &&& provider == "openrouter"@ ==> b.get_items("transforms"@) == Some(
                seq![JsonV::Text("middle-out"@)],
            ) && r.get_items("transforms"@) == Some(seq![JsonV::Text("middle-out"@)])
            &&& p.get_text("model"@) == Some(model)
            &&& p.get_items("messages"@) == Some(conv)
            &&& p.get_items("tools"@) == Some(tools)
            &&& p.get_bool("stream"@) == Some(false)
        }),
{
    reveal_strlit("model");
    reveal_strlit("messages");
    reveal_strlit("tools");
    reveal_strlit("tool_choice");
    reveal_strlit("stream");
    reveal_strlit("stream_options");
    reveal_strlit("transforms");
    reveal_strlit("include_usage");
    assert("model"@.len() == 5
        && "messages"@.len() == 8
        && "tools"@.len() == 5
        && "tool_choice"@.len() == 11
        && "stream"@.len() == 6
        && "stream_options"@.len() == 14
        && "transforms"@.len() == 10
        && "include_usage"@.len() == 13
        && "model"@[0] == 'm'
        && "tools"@[0] == 't');
}

/// The headers of a request: its type always, the key where there is one, and who asks where
/// OpenRouter is asked, and no others.
pub proof fn law_headers(key: Option<Seq<char>>, provider: Seq<char>, name: Seq<char>, value: Seq<char>)
    ensures
        headers_v(key, provider).contains((name, value)) <==> {
            ||| name == "Content-Type"@ && value == "application/json"@
            ||| name == "Authorization"@ && (key matches Some(k) && value == "Bearer "@ + k)
            ||| provider == "openrouter"@ && name == "HTTP-Referer"@ && value == "https://clif.dev"@
            ||| provider == "openrouter"@ && name == "X-Title"@ && value == "ClifPad"@
        },
{
    let h = headers_v(key, provider);
    let n: int = if key is Some {
        2
    } else {
        1
    };
    assert(h[0] == ("Content-Type"@, "application/json"@));
    if let Some(k) = key {
        assert(h[1] == ("Authorization"@, "Bearer "@ + k));
    }
    if provider == "openrouter"@ {
        assert(h[n] == ("HTTP-Referer"@, "https://clif.dev"@));
        assert(h[n + 1] == ("X-Title"@, "ClifPad"@));
        assert(h.len() == n + 2);
    } else {
        assert(h.len() == n);
    }
}

/// A refusal means that the conversation is too long when it is a bad request whose text says so
/// in one of three ways.
pub proof fn law_overflow(status: u16, before: Seq<char>, what: Seq<char>, after: Seq<char>)
    ensures
        status != 400 ==> !overflow(status, before + what + after),
        status == 400 && (what == "context_length"@ || what == "too many tokens"@ || what
            == "maximum context"@) ==> overflow(status, before + what + after),
        overflow(status, what) ==> text::contains(what, "context_length"@) || text::contains(
            what,
            "too many tokens"@,
        ) || text::contains(what, "maximum context"@),
{
    let s = before + what + after;
    let n = before.len() as int;
    assert(s.subrange(n, n + what.len()) =~= what);
    assert(text::occurs_at(s, what, n));
}

/// A file can be attached wherever the cut does not split a character: one of up to thirty thousand
/// bytes always.
pub proof fn law_what_can_be_attached(s: Seq<char>, a: Seq<char>, b: Seq<char>)
    ensures
        text::byte_len(s) <= 30000 ==> attachment_fits(s),
        s == a + b && text::byte_len(a) == 30000 ==> attachment_fits(s),
{
    text::law_boundaries(a, b, 0);
}

/// An image can be read wherever five bytes of whole characters stand before its comma, as in every
/// data URL; the images of a message are sent unless it answers a tool or makes calls.
pub proof fn law_what_images_can_be_sent(m: ChatMessage, url: Seq<char>, rest: Seq<char>)
    requires
        url == "data:"@ + rest,
    ensures
        image_ok(url),
        shows_images(m) ==> m.role@ != "tool"@ && m.images is Some && m.images->0@.len() > 0,
        m.role@ == "user"@ && m.images is Some && m.images->0@.len() > 0 ==> shows_images(m),
        m.role@ == "assistant"@ && m.tool_calls is Some && m.tool_calls->0@.len() > 0
            ==> !shows_images(m),
{
    reveal_strlit("user");
    reveal_strlit("tool");
    reveal_strlit("assistant");
    assert("user"@.len() == 4
        && "tool"@.len() == 4
        && "assistant"@.len() == 9
        && "user"@[0] == 'u'
        && "tool"@[0] == 't');
    reveal_strlit("data:");
    reveal_strlit(",");
    let s = "data:"@;
    assert(s.len() == 5);
    assert(s[0] == 'd' && s[1] == 'a' && s[2] == 't' && s[3] == 'a' && s[4] == ':');
    assert(text::byte_len(s) == 5) by {
        let e = Seq::<char>::empty();
        assert(s =~= e.push('d').push('a').push('t').push('a').push(':'));
        text::lemma_byte_len_push(e, 'd');
        text::lemma_byte_len_push(e.push('d'), 'a');
        text::lemma_byte_len_push(e.push('d').push('a'), 't');
        text::lemma_byte_len_push(e.push('d').push('a').push('t'), 'a');
        text::lemma_byte_len_push(e.push('d').push('a').push('t').push('a'), ':');
    }
    text::law_boundaries(s, rest, 0);
    assert(url.take(5) =~= s);
    if rest.len() > 0 {
        text::lemma_byte_len_take_strict(url, 5, 6);
    }
    text::lemma_chars_within_is(url, 5, 5);
    text::lemma_find_from(url, ","@, 0);
    if let Some(c) = comma_of(url) {
        assert(text::occurs_at(url, ","@, c));
        assert(url.subrange(c, c + 1)[0] == url[c]);
        assert(","@[0] == ',');
        if c < 5 {
            assert(url[c] == s[c]);
        }
    }
}

} // verus!
