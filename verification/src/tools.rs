//! The tools that the agent offers: their definitions, and the check of their arguments.
use vstd::prelude::*;

use crate::decimal;
use crate::json;
use crate::json::Json;
use crate::json::JsonV;
use crate::mode::AgentMode;
use crate::order;
use crate::session;
use crate::text;

verus! {

// ---- definitions ---------------------------------------------------------------------------

/// The description of one argument.
pub open spec fn field(kind: JsonV, description: Seq<char>) -> JsonV {
    JsonV::Object(
        json::no_members().insert("type"@, kind).insert("description"@, JsonV::Text(description)),
    )
}

/// A type that may also be null.
pub open spec fn nullable(kind: Seq<char>) -> JsonV {
    JsonV::Array(seq![JsonV::Text(kind), JsonV::Text("null"@)])
}

pub open spec fn name_list(names: Seq<Seq<char>>) -> Seq<JsonV> {
    names.map_values(|s: Seq<char>| JsonV::Text(s))
}

/// The schema of an object with these properties and no others.
pub open spec fn schema(properties: Map<Seq<char>, JsonV>, required: Seq<Seq<char>>) -> JsonV {
    JsonV::Object(
        json::no_members().insert("type"@, JsonV::Text("object"@)).insert(
            "additionalProperties"@,
            JsonV::Bool(false),
        ).insert("properties"@, JsonV::Object(properties)).insert(
            "required"@,
            JsonV::Array(name_list(required)),
        ),
    )
}

/// The definition of a tool.
pub open spec fn definition(
    name: Seq<char>,
    description: Seq<char>,
    properties: Map<Seq<char>, JsonV>,
    required: Seq<Seq<char>>,
) -> JsonV {
    JsonV::Object(
        json::no_members().insert("type"@, JsonV::Text("function"@)).insert(
            "function"@,
            JsonV::Object(
                json::no_members().insert("name"@, JsonV::Text(name)).insert(
                    "description"@,
                    JsonV::Text(description),
                ).insert("strict"@, JsonV::Bool(true)).insert(
                    "parameters"@,
                    schema(properties, required),
                ),
            ),
        ),
    )
}

/// The list of todo items that `todo_write` takes.
pub open spec fn todo_list_field() -> JsonV {
    JsonV::Object(
        json::no_members().insert("type"@, JsonV::Text("array"@)).insert(
            "description"@,
            JsonV::Text("List of todo items."@),
        ).insert(
            "items"@,
            schema(
                json::no_members().insert(
                    "id"@,
                    field(JsonV::Text("string"@), "Unique id for the task."@),
                ).insert("content"@, field(JsonV::Text("string"@), "Task description."@)).insert(
                    "status"@,
                    field(
                        JsonV::Text("string"@),
                        "One of: pending, in_progress, completed, cancelled."@,
                    ),
                ),
                seq!["id"@, "content"@, "status"@],
            ),
        ),
    )
}

/// The definition of `read_file`.
pub open spec fn read_file_tool() -> JsonV {
    definition(
        "read_file"@,
        "Read the contents of a file. Read files before editing them. Use this to inspect code, configs, and logs before making changes. For large files, use offset and limit to read specific line ranges instead of the whole file."@,
        json::no_members().insert(
            "path"@,
            field(JsonV::Text("string"@), "Path to the file. Prefer paths inside the current workspace."@),
        ).insert(
            "offset"@,
            field(nullable("integer"@), "1-based starting line number. Omit or null to start from line 1."@),
        ).insert(
            "limit"@,
            field(nullable("integer"@), "Maximum number of lines to return. Omit or null to read the entire file."@),
        ),
        seq!["path"@, "offset"@, "limit"@],
    )
}

/// The definition of `write_file`.
pub open spec fn write_file_tool() -> JsonV {
    definition(
        "write_file"@,
        "Write full content to a file, creating it if necessary. Use this for new files or full rewrites. Do not use this for small localized edits; prefer edit_file for targeted changes."@,
        json::no_members().insert(
            "path"@,
            field(JsonV::Text("string"@), "Path to the file to write. Prefer paths inside the current workspace."@),
        ).insert(
            "content"@,
            field(JsonV::Text("string"@), "Full file content to write."@),
        ),
        seq!["path"@, "content"@],
    )
}

/// The definition of `edit_file`.
pub open spec fn edit_file_tool() -> JsonV {
    definition(
        "edit_file"@,
        "Make a targeted edit by replacing old_string with new_string exactly once. Read the file first. Prefer this over write_file for localized changes. old_string must match the current file contents exactly, including whitespace."@,
        json::no_members().insert(
            "path"@,
            field(JsonV::Text("string"@), "Path to the file to edit. Prefer paths inside the current workspace."@),
        ).insert(
            "old_string"@,
            field(JsonV::Text("string"@), "Exact text to find and replace. Include enough surrounding context to make the match unique when possible."@),
        ).insert(
            "new_string"@,
            field(JsonV::Text("string"@), "Replacement text."@),
        ).insert(
            "replace_all"@,
            field(nullable("boolean"@), "Set true to replace all matches in the file. Defaults to false (single replacement)."@),
        ),
        seq!["path"@, "old_string"@, "new_string"@],
    )
}

/// The definition of `list_files`.
pub open spec fn list_files_tool() -> JsonV {
    definition(
        "list_files"@,
        "List files and directories at a path. Use this to explore the workspace before reading or editing files."@,
        json::no_members().insert(
            "path"@,
            field(JsonV::Text("string"@), "Directory path to list. Prefer paths inside the current workspace."@),
        ),
        seq!["path"@],
    )
}

/// The definition of `search`.
pub open spec fn search_tool() -> JsonV {
    definition(
        "search"@,
        "Search for text in files within a directory. Prefer this over run_command for codebase exploration."@,
        json::no_members().insert(
            "query"@,
            field(JsonV::Text("string"@), "Text or pattern to search for."@),
        ).insert(
            "path"@,
            field(JsonV::Text("string"@), "Directory to search in. Prefer paths inside the current workspace."@),
        ),
        seq!["query"@, "path"@],
    )
}

/// The definition of `run_command`.
pub open spec fn run_command_tool() -> JsonV {
    definition(
        "run_command"@,
        "Run a shell command and return its output. Use this mainly for build, test, lint, git, or validation tasks. Prefer read/search/list tools over shell commands for basic exploration. Requires user approval before execution."@,
        json::no_members().insert(
            "command"@,
            field(JsonV::Text("string"@), "Shell command to execute."@),
        ).insert(
            "working_dir"@,
            field(JsonV::Text("string"@), "Working directory for the command. Must stay inside the workspace if provided."@),
        ),
        seq!["command"@],
    )
}

/// The definition of `find_file`.
pub open spec fn find_file_tool() -> JsonV {
    definition(
        "find_file"@,
        "Find files or directories by partial name anywhere in the workspace. Use this when you do not know the exact location of something."@,
        json::no_members().insert(
            "name"@,
            field(JsonV::Text("string"@), "File or directory name to search for, partial match allowed."@),
        ).insert(
            "dir"@,
            field(JsonV::Text("string"@), "Starting directory. Defaults to the workspace root."@),
        ),
        seq!["name"@],
    )
}

/// The definition of `find_symbol`.
pub open spec fn find_symbol_tool() -> JsonV {
    definition(
        "find_symbol"@,
        "Fast lookup of function, class, struct, interface, type, enum, or constant definitions across the workspace. Uses the local codebase index — returns file path and line number for each definition. Prefer this over `search` when you know the name of the thing you are looking for."@,
        json::no_members().insert(
            "name"@,
            field(JsonV::Text("string"@), "Symbol name to look up (case-insensitive substring match)."@),
        ).insert(
            "limit"@,
            field(JsonV::Text("integer"@), "Max results to return. Defaults to 10."@),
        ),
        seq!["name"@],
    )
}

/// The definition of `todo_write`.
pub open spec fn todo_write_tool() -> JsonV {
    definition(
        "todo_write"@,
        "Create or update a structured todo list for this session. Use this for multi-step tasks to track progress and verification steps."@,
        json::no_members().insert(
            "todos"@,
            todo_list_field(),
        ).insert(
            "merge"@,
            field(nullable("boolean"@), "If true, merge by id into the existing todo list. If false or omitted, replace the list."@),
        ),
        seq!["todos"@],
    )
}

/// The definition of `todo_read`.
pub open spec fn todo_read_tool() -> JsonV {
    definition(
        "todo_read"@,
        "Read the current structured todo list for this session."@,
        json::no_members(),
        Seq::<Seq<char>>::empty(),
    )
}

/// The definition of `submit`.
pub open spec fn submit_tool() -> JsonV {
    definition(
        "submit"@,
        "Finish the task and provide a brief summary. Only call this when the user's request is complete or you are blocked and have clearly explained why."@,
        json::no_members().insert(
            "summary"@,
            field(JsonV::Text("string"@), "Brief summary of what was completed or what is blocking completion."@),
        ),
        seq!["summary"@],
    )
}

/// All tools, in the order in which they are offered.
pub open spec fn definitions() -> Seq<JsonV> {
    seq![
        read_file_tool(),
        write_file_tool(),
        edit_file_tool(),
        list_files_tool(),
        search_tool(),
        run_command_tool(),
        find_file_tool(),
        find_symbol_tool(),
        todo_write_tool(),
        todo_read_tool(),
        submit_tool(),
    ]
}

fn field_json(kind: Json, description: &str) -> (r: Json)
    ensures
        r@ == field(kind@, description@),
{
    Json::object().with("type", kind).with_str("description", description)
}

fn nullable_json(kind: &str) -> (r: Json)
    ensures
        r@ == nullable(kind@),
{
    let mut kinds: Vec<Json> = Vec::new();
    kinds.push(Json::string(kind));
    kinds.push(Json::string("null"));
    let r = Json::Array(kinds);
    proof {
        assert(r@->Array_0 =~= seq![JsonV::Text(kind@), JsonV::Text("null"@)]);
    }
    r
}

fn schema_json(properties: Json, required: Vec<Json>) -> (r: Json)
    requires
        properties@ is Object,
    ensures
        r@ == JsonV::Object(
            json::no_members().insert("type"@, JsonV::Text("object"@)).insert(
                "additionalProperties"@,
                JsonV::Bool(false),
            ).insert("properties"@, properties@).insert(
                "required"@,
                JsonV::Array(json::views(required@)),
            ),
        ),
{
    let list = Json::Array(required);
    proof {
        assert(list@->Array_0 =~= json::views(required@));
    }
    Json::object().with_str("type", "object").with("additionalProperties", Json::Bool(false)).with(
        "properties",
        properties,
    ).with("required", list)
}

fn definition_json(name: &str, description: &str, properties: Json, required: Vec<Json>) -> (r:
    Json)
    requires
        properties@ is Object,
    ensures
        forall|names: Seq<Seq<char>>|
            json::views(required@) == #[trigger] name_list(names) ==> r@ == definition(
                name@,
                description@,
                properties@->Object_0,
                names,
            ),
{
    Json::object().with_str("type", "function").with(
        "function",
        Json::object().with_str("name", name).with_str("description", description).with(
            "strict",
            Json::Bool(true),
        ).with("parameters", schema_json(properties, required)),
    )
}

fn todo_list_field_json() -> (r: Json)
    ensures
        r@ == todo_list_field(),
{
    let properties = Json::object().with(
        "id",
        field_json(Json::string("string"), "Unique id for the task."),
    ).with("content", field_json(Json::string("string"), "Task description.")).with(
        "status",
        field_json(
            Json::string("string"),
            "One of: pending, in_progress, completed, cancelled.",
        ),
    );
    let mut required: Vec<Json> = Vec::new();
    required.push(Json::string("id"));
    required.push(Json::string("content"));
    required.push(Json::string("status"));
    proof {
        assert(json::views(required@) =~= name_list(seq!["id"@, "content"@, "status"@]));
    }
    Json::object().with_str("type", "array").with_str("description", "List of todo items.").with(
        "items",
        schema_json(properties, required),
    )
}

fn read_file_json() -> (r: Json)
    ensures
        r@ == read_file_tool(),
{
    let properties = Json::object().with(
            "path",
            field_json(Json::string("string"), "Path to the file. Prefer paths inside the current workspace."),
        ).with(
            "offset",
            field_json(nullable_json("integer"), "1-based starting line number. Omit or null to start from line 1."),
        ).with(
            "limit",
            field_json(nullable_json("integer"), "Maximum number of lines to return. Omit or null to read the entire file."),
        );
    let mut required: Vec<Json> = Vec::new();
    required.push(Json::string("path"));
    required.push(Json::string("offset"));
    required.push(Json::string("limit"));
    proof {
        assert(json::views(required@) =~= name_list(seq!["path"@, "offset"@, "limit"@]));
    }
    definition_json(
        "read_file",
        "Read the contents of a file. Read files before editing them. Use this to inspect code, configs, and logs before making changes. For large files, use offset and limit to read specific line ranges instead of the whole file.",
        properties,
        required,
    )
}

fn write_file_json() -> (r: Json)
    ensures
        r@ == write_file_tool(),
{
    let properties = Json::object().with(
            "path",
            field_json(Json::string("string"), "Path to the file to write. Prefer paths inside the current workspace."),
        ).with(
            "content",
            field_json(Json::string("string"), "Full file content to write."),
        );
    let mut required: Vec<Json> = Vec::new();
    required.push(Json::string("path"));
    required.push(Json::string("content"));
    proof {
        assert(json::views(required@) =~= name_list(seq!["path"@, "content"@]));
    }
    definition_json(
        "write_file",
        "Write full content to a file, creating it if necessary. Use this for new files or full rewrites. Do not use this for small localized edits; prefer edit_file for targeted changes.",
        properties,
        required,
    )
}

fn edit_file_json() -> (r: Json)
    ensures
        r@ == edit_file_tool(),
{
    let properties = Json::object().with(
            "path",
            field_json(Json::string("string"), "Path to the file to edit. Prefer paths inside the current workspace."),
        ).with(
            "old_string",
            field_json(Json::string("string"), "Exact text to find and replace. Include enough surrounding context to make the match unique when possible."),
        ).with(
            "new_string",
            field_json(Json::string("string"), "Replacement text."),
        ).with(
            "replace_all",
            field_json(nullable_json("boolean"), "Set true to replace all matches in the file. Defaults to false (single replacement)."),
        );
    let mut required: Vec<Json> = Vec::new();
    required.push(Json::string("path"));
    required.push(Json::string("old_string"));
    required.push(Json::string("new_string"));
    proof {
        assert(json::views(required@) =~= name_list(seq!["path"@, "old_string"@, "new_string"@]));
    }
    definition_json(
        "edit_file",
        "Make a targeted edit by replacing old_string with new_string exactly once. Read the file first. Prefer this over write_file for localized changes. old_string must match the current file contents exactly, including whitespace.",
        properties,
        required,
    )
}

fn list_files_json() -> (r: Json)
    ensures
        r@ == list_files_tool(),
{
    let properties = Json::object().with(
            "path",
            field_json(Json::string("string"), "Directory path to list. Prefer paths inside the current workspace."),
        );
    let mut required: Vec<Json> = Vec::new();
    required.push(Json::string("path"));
    proof {
        assert(json::views(required@) =~= name_list(seq!["path"@]));
    }
    definition_json(
        "list_files",
        "List files and directories at a path. Use this to explore the workspace before reading or editing files.",
        properties,
        required,
    )
}

fn search_json() -> (r: Json)
    ensures
        r@ == search_tool(),
{
    let properties = Json::object().with(
            "query",
            field_json(Json::string("string"), "Text or pattern to search for."),
        ).with(
            "path",
            field_json(Json::string("string"), "Directory to search in. Prefer paths inside the current workspace."),
        );
    let mut required: Vec<Json> = Vec::new();
    required.push(Json::string("query"));
    required.push(Json::string("path"));
    proof {
        assert(json::views(required@) =~= name_list(seq!["query"@, "path"@]));
    }
    definition_json(
        "search",
        "Search for text in files within a directory. Prefer this over run_command for codebase exploration.",
        properties,
        required,
    )
}

fn run_command_json() -> (r: Json)
    ensures
        r@ == run_command_tool(),
{
    let properties = Json::object().with(
            "command",
            field_json(Json::string("string"), "Shell command to execute."),
        ).with(
            "working_dir",
            field_json(Json::string("string"), "Working directory for the command. Must stay inside the workspace if provided."),
        );
    let mut required: Vec<Json> = Vec::new();
    required.push(Json::string("command"));
    proof {
        assert(json::views(required@) =~= name_list(seq!["command"@]));
    }
    definition_json(
        "run_command",
        "Run a shell command and return its output. Use this mainly for build, test, lint, git, or validation tasks. Prefer read/search/list tools over shell commands for basic exploration. Requires user approval before execution.",
        properties,
        required,
    )
}

fn find_file_json() -> (r: Json)
    ensures
        r@ == find_file_tool(),
{
    let properties = Json::object().with(
            "name",
            field_json(Json::string("string"), "File or directory name to search for, partial match allowed."),
        ).with(
            "dir",
            field_json(Json::string("string"), "Starting directory. Defaults to the workspace root."),
        );
    let mut required: Vec<Json> = Vec::new();
    required.push(Json::string("name"));
    proof {
        assert(json::views(required@) =~= name_list(seq!["name"@]));
    }
    definition_json(
        "find_file",
        "Find files or directories by partial name anywhere in the workspace. Use this when you do not know the exact location of something.",
        properties,
        required,
    )
}

fn find_symbol_json() -> (r: Json)
    ensures
        r@ == find_symbol_tool(),
{
    let properties = Json::object().with(
            "name",
            field_json(Json::string("string"), "Symbol name to look up (case-insensitive substring match)."),
        ).with(
            "limit",
            field_json(Json::string("integer"), "Max results to return. Defaults to 10."),
        );
    let mut required: Vec<Json> = Vec::new();
    required.push(Json::string("name"));
    proof {
        assert(json::views(required@) =~= name_list(seq!["name"@]));
    }
    definition_json(
        "find_symbol",
        "Fast lookup of function, class, struct, interface, type, enum, or constant definitions across the workspace. Uses the local codebase index — returns file path and line number for each definition. Prefer this over `search` when you know the name of the thing you are looking for.",
        properties,
        required,
    )
}

fn todo_write_json() -> (r: Json)
    ensures
        r@ == todo_write_tool(),
{
    let properties = Json::object().with(
            "todos",
            todo_list_field_json(),
        ).with(
            "merge",
            field_json(nullable_json("boolean"), "If true, merge by id into the existing todo list. If false or omitted, replace the list."),
        );
    let mut required: Vec<Json> = Vec::new();
    required.push(Json::string("todos"));
    proof {
        assert(json::views(required@) =~= name_list(seq!["todos"@]));
    }
    definition_json(
        "todo_write",
        "Create or update a structured todo list for this session. Use this for multi-step tasks to track progress and verification steps.",
        properties,
        required,
    )
}

fn todo_read_json() -> (r: Json)
    ensures
        r@ == todo_read_tool(),
{
    let properties = Json::object();
    let required: Vec<Json> = Vec::new();
    proof {
        assert(json::views(required@) =~= name_list(Seq::<Seq<char>>::empty()));
    }
    definition_json(
        "todo_read",
        "Read the current structured todo list for this session.",
        properties,
        required,
    )
}

fn submit_json() -> (r: Json)
    ensures
        r@ == submit_tool(),
{
    let properties = Json::object().with(
            "summary",
            field_json(Json::string("string"), "Brief summary of what was completed or what is blocking completion."),
        );
    let mut required: Vec<Json> = Vec::new();
    required.push(Json::string("summary"));
    proof {
        assert(json::views(required@) =~= name_list(seq!["summary"@]));
    }
    definition_json(
        "submit",
        "Finish the task and provide a brief summary. Only call this when the user's request is complete or you are blocked and have clearly explained why.",
        properties,
        required,
    )
}

/// The tools that the agent offers, in function-calling format.
pub fn tool_definitions() -> (r: Vec<Json>)
    ensures
        json::views(r@) == definitions(),
{
    let mut tools: Vec<Json> = Vec::new();
    tools.push(read_file_json());
    tools.push(write_file_json());
    tools.push(edit_file_json());
    tools.push(list_files_json());
    tools.push(search_json());
    tools.push(run_command_json());
    tools.push(find_file_json());
    tools.push(find_symbol_json());
    tools.push(todo_write_json());
    tools.push(todo_read_json());
    tools.push(submit_json());
    proof {
        assert(json::views(tools@) =~= definitions());
    }
    tools
}

// ---- what other providers take --------------------------------------------------------------

/// A tool definition without the fields that only one provider knows.
pub open spec fn stripped(tool: JsonV) -> JsonV {
    match (tool, tool.get("function"@)) {
        (JsonV::Object(t), Some(JsonV::Object(f))) => {
            let plain = f.remove("strict"@);
            let function = match JsonV::Object(plain).get("parameters"@) {
                Some(JsonV::Object(p)) => plain.insert(
                    "parameters"@,
                    JsonV::Object(p.remove("additionalProperties"@)),
                ),
                _ => plain,
            };
            JsonV::Object(t.insert("function"@, JsonV::Object(function)))
        },
        _ => tool,
    }
}

fn strip_tool(tool: Json) -> (r: Json)
    ensures
        r@ == stripped(tool@),
{
    let function = match tool.get("function") {
        Some(f) => if f.is_object() {
            f.copy()
        } else {
            return tool;
        },
        None => {
            return tool;
        },
    };
    let plain = function.without("strict");
    let parameters = match plain.get("parameters") {
        Some(p) => if p.is_object() {
            Some(p.copy())
        } else {
            None
        },
        None => None,
    };
    let function = match parameters {
        Some(p) => plain.with("parameters", p.without("additionalProperties")),
        None => plain,
    };
    tool.with("function", function)
}

/// Removes the fields that make other providers reject a request.
pub fn strip_openai_fields(tools: Vec<Json>) -> (r: Vec<Json>)
    ensures
        json::views(r@) == json::views(tools@).map_values(|t: JsonV| stripped(t)),
{
    let ghost all = json::views(tools@);
    let mut rest = tools;
    let mut out: Vec<Json> = Vec::new();
    while rest.len() > 0
        invariant
            out@.len() + rest@.len() == all.len(),
            forall|i: int| 0 <= i < out@.len() ==> (#[trigger] out@[i])@ == stripped(all[i]),
            forall|i: int| 0 <= i < rest@.len() ==> (#[trigger] rest@[i])@ == all[out@.len() + i],
        decreases rest.len(),
    {
        let t = rest.remove(0);
        proof {
            assert(t@ == all[out@.len() as int]);
        }
        out.push(strip_tool(t));
    }
    proof {
        assert(json::views(out@) =~= all.map_values(|t: JsonV| stripped(t)));
    }
    out
}

// ---- the check of arguments -------------------------------------------------------------------

/// The arguments that a tool takes; none for a name that is no tool.
pub open spec fn allowed(name: Seq<char>) -> Option<Seq<Seq<char>>> {
    if name == "read_file"@ {
        Some(seq!["path"@, "offset"@, "limit"@])
    } else if name == "write_file"@ {
        Some(seq!["path"@, "content"@])
    } else if name == "edit_file"@ {
        Some(seq!["path"@, "old_string"@, "new_string"@, "replace_all"@])
    } else if name == "list_files"@ {
        Some(seq!["path"@])
    } else if name == "search"@ {
        Some(seq!["query"@, "path"@])
    } else if name == "run_command"@ {
        Some(seq!["command"@, "working_dir"@])
    } else if name == "find_file"@ {
        Some(seq!["name"@, "dir"@])
    } else if name == "find_symbol"@ {
        Some(seq!["name"@, "limit"@])
    } else if name == "todo_write"@ {
        Some(seq!["todos"@, "merge"@])
    } else if name == "todo_read"@ {
        Some(seq![])
    } else if name == "submit"@ {
        Some(seq!["summary"@])
    } else {
        None
    }
}

/// `k` is the first member, in the order of keys, that is not among the allowed ones.
pub open spec fn first_unexpected(
    m: Map<Seq<char>, JsonV>,
    ok: Seq<Seq<char>>,
    k: Seq<char>,
) -> bool {
    &&& m.contains_key(k)
    &&& !ok.contains(k)
    &&& forall|j: Seq<char>| #[trigger]
        m.contains_key(j) && !ok.contains(j) && j != k ==> order::lex_lt(k, j)
}

pub open spec fn some_unexpected(m: Map<Seq<char>, JsonV>, ok: Seq<Seq<char>>) -> bool {
    exists|k: Seq<char>| #[trigger] m.contains_key(k) && !ok.contains(k)
}

/// What is wrong with the keys of the arguments.
pub open spec fn check_keys(
    name: Seq<char>,
    m: Map<Seq<char>, JsonV>,
    ok: Seq<Seq<char>>,
) -> Option<Seq<char>> {
    if some_unexpected(m, ok) {
        let k = choose|k: Seq<char>| first_unexpected(m, ok, k);
        Some("Unexpected argument '"@ + k + "' for tool '"@ + name + "'"@)
    } else {
        None
    }
}

pub open spec fn need_string(args: JsonV, f: Seq<char>) -> Option<Seq<char>> {
    match args.get(f) {
        Some(JsonV::Text(_)) => None,
        Some(_) => Some("Field '"@ + f + "' must be a string"@),
        None => Some("Missing required field '"@ + f + "'"@),
    }
}

pub open spec fn string_if_there(args: JsonV, f: Seq<char>) -> Option<Seq<char>> {
    match args.get(f) {
        Some(JsonV::Text(_)) => None,
        Some(_) => Some("Field '"@ + f + "' must be a string"@),
        None => None,
    }
}

pub open spec fn integer_or_null(args: JsonV, f: Seq<char>) -> Option<Seq<char>> {
    match args.get(f) {
        Some(v) => if !(v is Null) && v.uint() is None && v.sint() is None {
            Some("Field '"@ + f + "' must be an integer or null"@)
        } else {
            None
        },
        None => None,
    }
}

pub open spec fn boolean_or_null(args: JsonV, f: Seq<char>) -> Option<Seq<char>> {
    match args.get(f) {
        Some(v) => if !(v is Null) && !(v is Bool) {
            Some("Field '"@ + f + "' must be a boolean or null"@)
        } else {
            None
        },
        None => None,
    }
}

/// The first of two complaints.
pub open spec fn either(a: Option<Seq<char>>, b: Option<Seq<char>>) -> Option<Seq<char>> {
    if a is Some {
        a
    } else {
        b
    }
}

pub open spec fn todo_complaint(i: int, what: Seq<char>) -> Option<Seq<char>> {
    Some("todos["@ + decimal::dec(i as nat) + what)
}

/// What is wrong with item `i` of a todo list.
pub open spec fn check_todo(i: int, item: JsonV) -> Option<Seq<char>> {
    if !(item is Object) {
        todo_complaint(i, "] must be an object"@)
    } else if item.get_text("id"@) is None {
        todo_complaint(i, "].id must be a string"@)
    } else if item.get_text("content"@) is None {
        todo_complaint(i, "].content must be a string"@)
    } else if item.get_text("status"@) is None {
        todo_complaint(i, "].status must be a string"@)
    } else if text::is_blank(item.get_text("id"@)->Some_0) || text::is_blank(
        item.get_text("content"@)->Some_0,
    ) {
        todo_complaint(i, "].id/content cannot be empty"@)
    } else if !session::valid_status(item.get_text("status"@)->Some_0) {
        todo_complaint(
            i,
            "].status must be one of: pending, in_progress, completed, cancelled"@,
        )
    } else {
        None
    }
}

/// The first thing wrong with the items from `i` on.
pub open spec fn check_todos(items: Seq<JsonV>, i: int) -> Option<Seq<char>>
    decreases items.len() - i,
{
    if i >= items.len() {
        None
    } else {
        either(check_todo(i, items[i]), check_todos(items, i + 1))
    }
}

pub open spec fn check_todo_list(args: JsonV) -> Option<Seq<char>> {
    match args.get("todos"@) {
        None => Some("Missing required field 'todos'"@),
        Some(JsonV::Array(items)) => check_todos(items, 0),
        Some(_) => Some("Field 'todos' must be an array"@),
    }
}

/// What is wrong with the values of the arguments.
pub open spec fn check_fields(name: Seq<char>, args: JsonV) -> Option<Seq<char>> {
    if name == "read_file"@ {
        either(
            need_string(args, "path"@),
            either(integer_or_null(args, "offset"@), integer_or_null(args, "limit"@)),
        )
    } else if name == "list_files"@ {
        need_string(args, "path"@)
    } else if name == "write_file"@ {
        either(need_string(args, "path"@), need_string(args, "content"@))
    } else if name == "edit_file"@ {
        either(
            need_string(args, "path"@),
            either(
                need_string(args, "old_string"@),
                either(need_string(args, "new_string"@), boolean_or_null(args, "replace_all"@)),
            ),
        )
    } else if name == "search"@ {
        either(need_string(args, "query"@), need_string(args, "path"@))
    } else if name == "run_command"@ {
        either(need_string(args, "command"@), string_if_there(args, "working_dir"@))
    } else if name == "find_file"@ {
        either(need_string(args, "name"@), string_if_there(args, "dir"@))
    } else if name == "find_symbol"@ {
        either(need_string(args, "name"@), integer_or_null(args, "limit"@))
    } else if name == "todo_write"@ {
        either(check_todo_list(args), boolean_or_null(args, "merge"@))
    } else if name == "todo_read"@ {
        None
    } else {
        need_string(args, "summary"@)
    }
}

/// What is wrong with the arguments of a call.
pub open spec fn check_args(name: Seq<char>, args: JsonV) -> Option<Seq<char>> {
    match args {
        JsonV::Object(m) => match allowed(name) {
            None => Some("Unknown tool: "@ + name),
            Some(ok) => either(check_keys(name, m, ok), check_fields(name, args)),
        },
        _ => Some("Tool arguments must be a JSON object"@),
    }
}

/// An optional message is the given complaint.
pub open spec fn says(r: Option<String>, complaint: Option<Seq<char>>) -> bool {
    match r {
        Some(s) => complaint == Some(s@),
        None => complaint is None,
    }
}

fn quoted(before: &str, f: &str, after: &str) -> (r: String)
    ensures
        r@ == before@ + f@ + after@,
{
    let mut s = text::copy(before);
    s.append(f);
    s.append(after);
    s
}

fn require_string(args: &Json, f: &str) -> (r: Option<String>)
    ensures
        says(r, need_string(args@, f@)),
{
    match args.get(f) {
        Some(Json::Text(_)) => None,
        Some(_) => Some(quoted("Field '", f, "' must be a string")),
        None => Some(quoted("Missing required field '", f, "'")),
    }
}

fn require_string_if_there(args: &Json, f: &str) -> (r: Option<String>)
    ensures
        says(r, string_if_there(args@, f@)),
{
    match args.get(f) {
        Some(Json::Text(_)) => None,
        Some(_) => Some(quoted("Field '", f, "' must be a string")),
        None => None,
    }
}

fn require_integer_or_null(args: &Json, f: &str) -> (r: Option<String>)
    ensures
        says(r, integer_or_null(args@, f@)),
{
    match args.get(f) {
        Some(v) => if !v.is_null() && v.as_u64().is_none() && v.as_i64().is_none() {
            Some(quoted("Field '", f, "' must be an integer or null"))
        } else {
            None
        },
        None => None,
    }
}

fn require_boolean_or_null(args: &Json, f: &str) -> (r: Option<String>)
    ensures
        says(r, boolean_or_null(args@, f@)),
{
    match args.get(f) {
        Some(v) => if !v.is_null() && v.as_bool().is_none() {
            Some(quoted("Field '", f, "' must be a boolean or null"))
        } else {
            None
        },
        None => None,
    }
}

fn about_todo(i: usize, what: &str) -> (r: Option<String>)
    ensures
        says(r, todo_complaint(i as int, what@)),
{
    let mut s = text::copy("todos[");
    s.append(decimal::dec_usize(i).as_str());
    s.append(what);
    Some(s)
}

fn validate_todo(i: usize, item: &Json) -> (r: Option<String>)
    ensures
        says(r, check_todo(i as int, item@)),
{
    if !item.is_object() {
        return about_todo(i, "] must be an object");
    }
    let id = match item.get_str("id") {
        Some(s) => s,
        None => {
            return about_todo(i, "].id must be a string");
        },
    };
    let content = match item.get_str("content") {
        Some(s) => s,
        None => {
            return about_todo(i, "].content must be a string");
        },
    };
    let status = match item.get_str("status") {
        Some(s) => s,
        None => {
            return about_todo(i, "].status must be a string");
        },
    };
    if text::str_is_blank(id) || text::str_is_blank(content) {
        return about_todo(i, "].id/content cannot be empty");
    }
    if !session::is_valid_todo_status(status) {
        return about_todo(
            i,
            "].status must be one of: pending, in_progress, completed, cancelled",
        );
    }
    None
}

fn validate_todos(args: &Json) -> (r: Option<String>)
    ensures
        says(r, check_todo_list(args@)),
{
    let todos = match args.get("todos") {
        Some(t) => t,
        None => {
            return Some(text::copy("Missing required field 'todos'"));
        },
    };
    let items = match todos.as_array() {
        Some(v) => v,
        None => {
            return Some(text::copy("Field 'todos' must be an array"));
        },
    };
    let ghost all = json::views(items@);
    let mut i: usize = 0;
    while i < items.len()
        invariant
            all == json::views(items@),
            i <= items@.len(),
            args@.get("todos"@) == Some(JsonV::Array(all)),
            check_todos(all, 0) == check_todos(all, i as int),
        decreases items.len() - i,
    {
        let e = validate_todo(i, &items[i]);
        proof {
            assert(all[i as int] == items@[i as int]@);
        }
        if e.is_some() {
            return e;
        }
        i = i + 1;
    }
    None
}

fn allowed_names(name: &str) -> (r: Option<Vec<&'static str>>)
    ensures
        match r {
            Some(v) => allowed(name@) == Some(v@.map_values(|s: &'static str| s@)),
            None => allowed(name@) is None,
        },
{
    let names: Vec<&'static str> = if text::str_eq(name, "read_file") {
        vec!["path", "offset", "limit"]
    } else if text::str_eq(name, "write_file") {
        vec!["path", "content"]
    } else if text::str_eq(name, "edit_file") {
        vec!["path", "old_string", "new_string", "replace_all"]
    } else if text::str_eq(name, "list_files") {
        vec!["path"]
    } else if text::str_eq(name, "search") {
        vec!["query", "path"]
    } else if text::str_eq(name, "run_command") {
        vec!["command", "working_dir"]
    } else if text::str_eq(name, "find_file") {
        vec!["name", "dir"]
    } else if text::str_eq(name, "find_symbol") {
        vec!["name", "limit"]
    } else if text::str_eq(name, "todo_write") {
        vec!["todos", "merge"]
    } else if text::str_eq(name, "todo_read") {
        Vec::new()
    } else if text::str_eq(name, "submit") {
        vec!["summary"]
    } else {
        return None;
    };
    proof {
        assert(names@.map_values(|s: &'static str| s@) =~= allowed(name@)->Some_0);
    }
    Some(names)
}

fn is_among(k: &str, names: &Vec<&'static str>) -> (r: bool)
    ensures
        r == names@.map_values(|s: &'static str| s@).contains(k@),
{
    let ghost all = names@.map_values(|s: &'static str| s@);
    let mut i: usize = 0;
    while i < names.len()
        invariant
            all == names@.map_values(|s: &'static str| s@),
            i <= names@.len(),
            forall|j: int| 0 <= j < i ==> all[j] != k@,
        decreases names.len() - i,
    {
        if text::str_eq(names[i], k) {
            proof {
                assert(all[i as int] == k@);
            }
            return true;
        }
        i = i + 1;
    }
    false
}

fn validate_keys(name: &str, args: &Json, names: &Vec<&'static str>) -> (r: Option<String>)
    requires
        args@ is Object,
    ensures
        says(
            r,
            check_keys(
                name@,
                args@->Object_0,
                names@.map_values(|s: &'static str| s@),
            ),
        ),
{
    let ghost ok = names@.map_values(|s: &'static str| s@);
    let ghost m = args@->Object_0;
    let keys = args.keys();
    let mut first: Option<usize> = None;
    let mut i: usize = 0;
    while i < keys.len()
        invariant
            ok == names@.map_values(|s: &'static str| s@),
            i <= keys@.len(),
            match first {
                Some(f) => f < i && !ok.contains(keys@[f as int]@) && forall|j: int|
                    0 <= j < i && !ok.contains((#[trigger] keys@[j])@) && keys@[j]@
                        != keys@[f as int]@ ==> order::lex_lt(keys@[f as int]@, keys@[j]@),
                None => forall|j: int| 0 <= j < i ==> ok.contains((#[trigger] keys@[j])@),
            },
        decreases keys.len() - i,
    {
        if !is_among(keys[i].as_str(), names) {
            match first {
                Some(f) => {
                    if order::str_lt(keys[i].as_str(), keys[f].as_str()) {
                        proof {
                            assert forall|j: int|
                                0 <= j < i + 1 && !ok.contains((#[trigger] keys@[j])@)
                                    && keys@[j]@ != keys@[i as int]@ implies order::lex_lt(
                                keys@[i as int]@,
                                keys@[j]@,
                            ) by {
                                if keys@[j]@ != keys@[f as int]@ {
                                    order::lemma_lex_transitive(
                                        keys@[i as int]@,
                                        keys@[f as int]@,
                                        keys@[j]@,
                                    );
                                }
                            }
                        }
                        first = Some(i);
                    } else {
                        proof {
                            order::lemma_lex_total(keys@[i as int]@, keys@[f as int]@);
                        }
                    }
                },
                None => {
                    first = Some(i);
                },
            }
        }
        i = i + 1;
    }
    match first {
        Some(f) => {
            let mut s = quoted("Unexpected argument '", keys[f].as_str(), "' for tool '");
            s.append(name);
            s.append("'");
            proof {
                let k = keys@[f as int]@;
                assert(m.contains_key(k));
                assert(some_unexpected(m, ok));
                assert forall|j: Seq<char>| #[trigger]
                    m.contains_key(j) && !ok.contains(j) && j != k implies order::lex_lt(k, j) by {
                    let a = choose|a: int| 0 <= a < keys@.len() && (#[trigger] keys@[a])@ == j;
                    assert(!ok.contains(keys@[a]@));
                }
                assert(first_unexpected(m, ok, k));
                let c = choose|c: Seq<char>| first_unexpected(m, ok, c);
                if c != k {
                    order::lemma_lex_transitive(c, k, c);
                    order::lemma_lex_irreflexive(c);
                }
                assert(s@ =~= "Unexpected argument '"@ + k + "' for tool '"@ + name@ + "'"@);
            }
            Some(s)
        },
        None => {
            proof {
                if some_unexpected(m, ok) {
                    let k = choose|k: Seq<char>| #[trigger] m.contains_key(k) && !ok.contains(k);
                    let a = choose|a: int| 0 <= a < keys@.len() && (#[trigger] keys@[a])@ == k;
                    assert(ok.contains(keys@[a]@));
                }
            }
            None
        },
    }
}

fn earlier(a: Option<String>, b: Option<String>) -> (r: Option<String>)
    ensures
        r == (if a is Some {
            a
        } else {
            b
        }),
{
    match a {
        Some(s) => Some(s),
        None => b,
    }
}

fn validate_fields(name: &str, args: &Json) -> (r: Option<String>)
    ensures
        says(r, check_fields(name@, args@)),
{
    if text::str_eq(name, "read_file") {
        earlier(
            require_string(args, "path"),
            earlier(
                require_integer_or_null(args, "offset"),
                require_integer_or_null(args, "limit"),
            ),
        )
    } else if text::str_eq(name, "list_files") {
        require_string(args, "path")
    } else if text::str_eq(name, "write_file") {
        earlier(require_string(args, "path"), require_string(args, "content"))
    } else if text::str_eq(name, "edit_file") {
        earlier(
            require_string(args, "path"),
            earlier(
                require_string(args, "old_string"),
                earlier(
                    require_string(args, "new_string"),
                    require_boolean_or_null(args, "replace_all"),
                ),
            ),
        )
    } else if text::str_eq(name, "search") {
        earlier(require_string(args, "query"), require_string(args, "path"))
    } else if text::str_eq(name, "run_command") {
        earlier(require_string(args, "command"), require_string_if_there(args, "working_dir"))
    } else if text::str_eq(name, "find_file") {
        earlier(require_string(args, "name"), require_string_if_there(args, "dir"))
    } else if text::str_eq(name, "find_symbol") {
        earlier(require_string(args, "name"), require_integer_or_null(args, "limit"))
    } else if text::str_eq(name, "todo_write") {
        earlier(validate_todos(args), require_boolean_or_null(args, "merge"))
    } else if text::str_eq(name, "todo_read") {
        None
    } else {
        require_string(args, "summary")
    }
}

/// Checks the arguments of a call: they are an object, the tool exists, no argument is
/// unknown to it, and each has the right type. The first thing wrong is reported.
pub fn validate_tool_args(name: &str, args: &Json) -> (r: Result<(), String>)
    ensures
        match r {
            Ok(_) => check_args(name@, args@) is None,
            Err(e) => check_args(name@, args@) == Some(e@),
        },
{
    if !args.is_object() {
        return Err(text::copy("Tool arguments must be a JSON object"));
    }
    let names = match allowed_names(name) {
        Some(v) => v,
        None => {
            return Err(text::cat("Unknown tool: ", name));
        },
    };
    match earlier(validate_keys(name, args, &names), validate_fields(name, args)) {
        Some(e) => Err(e),
        None => Ok(()),
    }
}

// ---- what the user sees -------------------------------------------------------------------------

pub open spec fn status_label(name: Seq<char>) -> Seq<char> {
    if name == "read_file"@ {
        "Reading file..."@
    } else if name == "write_file"@ {
        "Writing file..."@
    } else if name == "edit_file"@ {
        "Editing file..."@
    } else if name == "list_files"@ {
        "Exploring files..."@
    } else if name == "search"@ {
        "Searching codebase..."@
    } else if name == "find_file"@ {
        "Finding file..."@
    } else if name == "find_symbol"@ {
        "Looking up symbol..."@
    } else if name == "todo_write"@ {
        "Updating task list..."@
    } else if name == "todo_read"@ {
        "Reading task list..."@
    } else if name == "run_command"@ {
        "Running command..."@
    } else {
        "Working..."@
    }
}

pub fn tool_status_label(name: &str) -> (r: &'static str)
    ensures
        r@ == status_label(name@),
{
    if text::str_eq(name, "read_file") {
        "Reading file..."
    } else if text::str_eq(name, "write_file") {
        "Writing file..."
    } else if text::str_eq(name, "edit_file") {
        "Editing file..."
    } else if text::str_eq(name, "list_files") {
        "Exploring files..."
    } else if text::str_eq(name, "search") {
        "Searching codebase..."
    } else if text::str_eq(name, "find_file") {
        "Finding file..."
    } else if text::str_eq(name, "find_symbol") {
        "Looking up symbol..."
    } else if text::str_eq(name, "todo_write") {
        "Updating task list..."
    } else if text::str_eq(name, "todo_read") {
        "Reading task list..."
    } else if text::str_eq(name, "run_command") {
        "Running command..."
    } else {
        "Working..."
    }
}

// ---- the tools, told to a local model ------------------------------------------------------------

/// The tool changes files or runs commands.
pub open spec fn mutating(name: Seq<char>) -> bool {
    name == "write_file"@ || name == "edit_file"@ || name == "run_command"@
}

pub open spec fn tool_name(tool: JsonV) -> Seq<char> {
    match tool.get("function"@) {
        Some(f) => match f.get_text("name"@) {
            Some(n) => n,
            None => seq![],
        },
        None => seq![],
    }
}

/// The tool is offered in this mode.
pub open spec fn offered(tool: JsonV, mode: AgentMode) -> bool {
    tool.get("function"@) is Some && (mode == AgentMode::Agent || !mutating(tool_name(tool)))
}

/// The paragraph about one tool.
pub open spec fn tool_section(tool: JsonV) -> Seq<char> {
    let f = tool.get("function"@)->Some_0;
    "\n### "@ + tool_name(tool) + "\n"@ + (match f.get_text("description"@) {
        Some(d) => d,
        None => seq![],
    }) + "\nJSON Schema for `arguments`: "@ + (match f.get("parameters"@) {
        Some(p) => json::printed(p),
        None => "{}"@,
    }) + "\n"@
}

pub open spec fn tool_sections(tools: Seq<JsonV>, mode: AgentMode) -> Seq<char>
    decreases tools.len(),
{
    if tools.len() == 0 {
        seq![]
    } else {
        let before = tool_sections(tools.drop_last(), mode);
        if offered(tools.last(), mode) {
            before + tool_section(tools.last())
        } else {
            before
        }
    }
}

pub open spec fn instruction_head() -> Seq<char> {
    "# Tool calling\n\nYou can call tools to inspect and modify the user's codebase. To call a tool, emit EXACTLY this form and then STOP:\n\n<tool_call>\n{\"name\": \"read_file\", \"arguments\": {\"path\": \"src/main.rs\"}}\n</tool_call>\n\nRules:\n- Emit ONE tool call at a time, then stop and wait. The result comes back to you in a <tool_response> block.\n- `arguments` MUST be a JSON object matching that tool's schema exactly. Never invent argument names.\n- Write no prose in the same message as a tool call.\n- Always read a file before editing it.\n- When the task is done and you need no more tools, reply with plain prose and NO <tool_call> block. That ends your turn.\n\n## Available tools\n"@
}

/// What a local model is told about its tools.
pub open spec fn instructions(mode: AgentMode) -> Seq<char> {
    instruction_head() + tool_sections(definitions(), mode)
}

fn is_mutating(name: &str) -> (r: bool)
    ensures
        r == mutating(name@),
{
    text::str_eq(name, "write_file") || text::str_eq(name, "edit_file") || text::str_eq(
        name,
        "run_command",
    )
}

fn section(tool: &Json, mode: AgentMode) -> (r: Option<String>)
    ensures
        match r {
            Some(s) => offered(tool@, mode) && s@ == tool_section(tool@),
            None => !offered(tool@, mode),
        },
{
    let f = match tool.get("function") {
        Some(f) => f,
        None => {
            return None;
        },
    };
    proof {
        reveal_strlit("");
        assert(""@ =~= Seq::<char>::empty());
    }
    let name = match f.get_str("name") {
        Some(n) => n,
        None => "",
    };
    if mode != AgentMode::Agent && is_mutating(name) {
        return None;
    }
    let description = match f.get_str("description") {
        Some(d) => d,
        None => "",
    };
    let parameters = match f.get("parameters") {
        Some(p) => json::print(p),
        None => text::copy("{}"),
    };
    let mut s = text::copy("\n### ");
    s.append(name);
    s.append("\n");
    s.append(description);
    s.append("\nJSON Schema for `arguments`: ");
    s.append(parameters.as_str());
    s.append("\n");
    Some(s)
}

/// The tool protocol that a local model is taught, with the tools that the mode offers.
pub fn local_tool_instructions(mode: AgentMode) -> (r: String)
    ensures
        r@ == instructions(mode),
{
    let tools = tool_definitions();
    let ghost all = json::views(tools@);
    let mut s = text::copy("# Tool calling\n\nYou can call tools to inspect and modify the user's codebase. To call a tool, emit EXACTLY this form and then STOP:\n\n<tool_call>\n{\"name\": \"read_file\", \"arguments\": {\"path\": \"src/main.rs\"}}\n</tool_call>\n\nRules:\n- Emit ONE tool call at a time, then stop and wait. The result comes back to you in a <tool_response> block.\n- `arguments` MUST be a JSON object matching that tool's schema exactly. Never invent argument names.\n- Write no prose in the same message as a tool call.\n- Always read a file before editing it.\n- When the task is done and you need no more tools, reply with plain prose and NO <tool_call> block. That ends your turn.\n\n## Available tools\n");
    let mut i: usize = 0;
    proof {
        assert(all.take(0) =~= Seq::<JsonV>::empty());
        assert(s@ =~= instruction_head() + tool_sections(all.take(0), mode));
    }
    while i < tools.len()
        invariant
            all == json::views(tools@),
            i <= tools@.len(),
            s@ == instruction_head() + tool_sections(all.take(i as int), mode),
        decreases tools.len() - i,
    {
        proof {
            assert(all.take(i as int + 1).drop_last() =~= all.take(i as int));
            assert(all.take(i as int + 1).last() == tools@[i as int]@);
        }
        let ghost before = s@;
        if let Some(part) = section(&tools[i], mode) {
            s.append(part.as_str());
            proof {
                assert(s@ =~= instruction_head() + (tool_sections(all.take(i as int), mode)
                    + part@));
            }
        }
        i = i + 1;
    }
    proof {
        assert(all.take(i as int) =~= all);
    }
    s
}

// ---- laws --------------------------------------------------------------------------------------

/// The tools that a mode offers, in order.
pub open spec fn offered_tools(tools: Seq<JsonV>, mode: AgentMode) -> Seq<JsonV>
    decreases tools.len(),
{
    if tools.len() == 0 {
        seq![]
    } else if offered(tools.last(), mode) {
        offered_tools(tools.drop_last(), mode).push(tools.last())
    } else {
        offered_tools(tools.drop_last(), mode)
    }
}

pub open spec fn all_sections(tools: Seq<JsonV>) -> Seq<char>
    decreases tools.len(),
{
    if tools.len() == 0 {
        seq![]
    } else {
        all_sections(tools.drop_last()) + tool_section(tools.last())
    }
}

/// A mode that only reads is told of no tool that changes files or runs commands, and the
/// instructions describe the tools it is offered and nothing else.
pub proof fn law_readonly_modes_hide_mutating_tools(mode: AgentMode)
    ensures
        instructions(mode) == instruction_head() + all_sections(
            offered_tools(definitions(), mode),
        ),
        mode != AgentMode::Agent ==> forall|i: int|
            0 <= i < offered_tools(definitions(), mode).len() ==> !mutating(
                tool_name(#[trigger] offered_tools(definitions(), mode)[i]),
            ),
        mode == AgentMode::Agent ==> offered_tools(definitions(), mode) == definitions(),
{
    lemma_offered(definitions(), mode);
    if mode == AgentMode::Agent {
        assert forall|i: int| 0 <= i < definitions().len() implies (
        #[trigger] definitions()[i]).get("function"@) is Some by {
            lemma_definition_parts(i);
        }
        lemma_offered_all(definitions());
    }
}

proof fn lemma_offered(tools: Seq<JsonV>, mode: AgentMode)
    ensures
        tool_sections(tools, mode) == all_sections(offered_tools(tools, mode)),
        forall|i: int|
            0 <= i < offered_tools(tools, mode).len() ==> offered(
                #[trigger] offered_tools(tools, mode)[i],
                mode,
            ),
    decreases tools.len(),
{
    if tools.len() > 0 {
        lemma_offered(tools.drop_last(), mode);
        if offered(tools.last(), mode) {
            assert(offered_tools(tools, mode).drop_last() =~= offered_tools(
                tools.drop_last(),
                mode,
            ));
        }
    }
}

proof fn lemma_offered_all(tools: Seq<JsonV>)
    requires
        forall|i: int| 0 <= i < tools.len() ==> (#[trigger] tools[i]).get("function"@) is Some,
    ensures
        offered_tools(tools, AgentMode::Agent) == tools,
    decreases tools.len(),
{
    if tools.len() > 0 {
        assert(tools[tools.len() - 1].get("function"@) is Some);
        assert forall|i: int| 0 <= i < tools.drop_last().len() implies (
        #[trigger] tools.drop_last()[i]).get("function"@) is Some by {
            assert(tools[i].get("function"@) is Some);
        }
        lemma_offered_all(tools.drop_last());
        assert(tools =~= tools.drop_last().push(tools.last()));
    } else {
        assert(tools =~= Seq::<JsonV>::empty());
    }
}

/// What the members of a definition are.
proof fn lemma_parts()
    ensures
        forall|
            name: Seq<char>,
            description: Seq<char>,
            properties: Map<Seq<char>, JsonV>,
            required: Seq<Seq<char>>,
        |
            ({
                let d = #[trigger] definition(name, description, properties, required);
                &&& d.get("function"@) is Some
                &&& tool_name(d) == name
                &&& properties_of(d) == Some(JsonV::Object(properties))
            }),
{
    reveal_strlit("function");
    reveal_strlit("type");
    reveal_strlit("name");
    reveal_strlit("description");
    reveal_strlit("strict");
    reveal_strlit("parameters");
    reveal_strlit("properties");
    reveal_strlit("required");
    assert("name"@.len() != "description"@.len());
    assert("name"@.len() != "strict"@.len());
    assert("name"@.len() != "parameters"@.len());
    assert("properties"@.len() != "required"@.len());
}

pub open spec fn parameters_of(tool: JsonV) -> Option<JsonV> {
    match tool.get("function"@) {
        Some(f) => f.get("parameters"@),
        None => None,
    }
}

/// The properties that a tool's schema lists.
pub open spec fn properties_of(tool: JsonV) -> Option<JsonV> {
    match parameters_of(tool) {
        Some(p) => p.get("properties"@),
        None => None,
    }
}

/// The schema of a tool lists exactly the arguments that the check of its calls takes.
pub open spec fn describes_itself(tool: JsonV) -> bool {
    &&& tool.get("function"@) is Some
    &&& allowed(tool_name(tool)) is Some
    &&& properties_of(tool) is Some
    &&& properties_of(tool)->Some_0 is Object
    &&& properties_of(tool)->Some_0->Object_0.dom() == allowed(tool_name(tool))->Some_0.to_set()
}

proof fn lemma_read_file_tool()
    ensures
        describes_itself(read_file_tool()),
{
    lemma_parts();
    reveal_strlit("read_file");
    let keys = seq!["path"@, "offset"@, "limit"@];
    assert(keys[0] == "path"@);
    assert(keys[1] == "offset"@);
    assert(keys[2] == "limit"@);
    assert(tool_name(read_file_tool()) == "read_file"@);
    assert(allowed("read_file"@) == Some(keys));
    assert(properties_of(read_file_tool())->Some_0->Object_0.dom() =~= keys.to_set());
}

proof fn lemma_write_file_tool()
    ensures
        describes_itself(write_file_tool()),
{
    lemma_parts();
    reveal_strlit("write_file");
    reveal_strlit("read_file");
    let keys = seq!["path"@, "content"@];
    assert(keys[0] == "path"@);
    assert(keys[1] == "content"@);
    assert(tool_name(write_file_tool()) == "write_file"@);
    assert(allowed("write_file"@) == Some(keys));
    assert(properties_of(write_file_tool())->Some_0->Object_0.dom() =~= keys.to_set());
}

proof fn lemma_edit_file_tool()
    ensures
        describes_itself(edit_file_tool()),
{
    lemma_parts();
    reveal_strlit("edit_file");
    reveal_strlit("read_file");
    reveal_strlit("write_file");
    assert("edit_file"@[0] != "read_file"@[0]);
    let keys = seq!["path"@, "old_string"@, "new_string"@, "replace_all"@];
    assert(keys[0] == "path"@);
    assert(keys[1] == "old_string"@);
    assert(keys[2] == "new_string"@);
    assert(keys[3] == "replace_all"@);
    assert(tool_name(edit_file_tool()) == "edit_file"@);
    assert(allowed("edit_file"@) == Some(keys));
    assert(properties_of(edit_file_tool())->Some_0->Object_0.dom() =~= keys.to_set());
}

proof fn lemma_list_files_tool()
    ensures
        describes_itself(list_files_tool()),
{
    lemma_parts();
    reveal_strlit("list_files");
    reveal_strlit("read_file");
    reveal_strlit("write_file");
    reveal_strlit("edit_file");
    assert("list_files"@[0] != "write_file"@[0]);
    let keys = seq!["path"@];
    assert(keys[0] == "path"@);
    assert(tool_name(list_files_tool()) == "list_files"@);
    assert(allowed("list_files"@) == Some(keys));
    assert(properties_of(list_files_tool())->Some_0->Object_0.dom() =~= keys.to_set());
}

proof fn lemma_search_tool()
    ensures
        describes_itself(search_tool()),
{
    lemma_parts();
    reveal_strlit("search");
    reveal_strlit("read_file");
    reveal_strlit("write_file");
    reveal_strlit("edit_file");
    reveal_strlit("list_files");
    let keys = seq!["query"@, "path"@];
    assert(keys[0] == "query"@);
    assert(keys[1] == "path"@);
    assert(tool_name(search_tool()) == "search"@);
    assert(allowed("search"@) == Some(keys));
    assert(properties_of(search_tool())->Some_0->Object_0.dom() =~= keys.to_set());
}

proof fn lemma_run_command_tool()
    ensures
        describes_itself(run_command_tool()),
{
    lemma_parts();
    reveal_strlit("run_command");
    reveal_strlit("read_file");
    reveal_strlit("write_file");
    reveal_strlit("edit_file");
    reveal_strlit("list_files");
    reveal_strlit("search");
    let keys = seq!["command"@, "working_dir"@];
    assert(keys[0] == "command"@);
    assert(keys[1] == "working_dir"@);
    assert(tool_name(run_command_tool()) == "run_command"@);
    assert(allowed("run_command"@) == Some(keys));
    assert(properties_of(run_command_tool())->Some_0->Object_0.dom() =~= keys.to_set());
}

proof fn lemma_find_file_tool()
    ensures
        describes_itself(find_file_tool()),
{
    lemma_parts();
    reveal_strlit("find_file");
    reveal_strlit("read_file");
    reveal_strlit("write_file");
    reveal_strlit("edit_file");
    reveal_strlit("list_files");
    reveal_strlit("search");
    reveal_strlit("run_command");
    assert("find_file"@[0] != "read_file"@[0]);
    assert("find_file"@[0] != "edit_file"@[0]);
    let keys = seq!["name"@, "dir"@];
    assert(keys[0] == "name"@);
    assert(keys[1] == "dir"@);
    assert(tool_name(find_file_tool()) == "find_file"@);
    assert(allowed("find_file"@) == Some(keys));
    assert(properties_of(find_file_tool())->Some_0->Object_0.dom() =~= keys.to_set());
}

proof fn lemma_find_symbol_tool()
    ensures
        describes_itself(find_symbol_tool()),
{
    lemma_parts();
    reveal_strlit("find_symbol");
    reveal_strlit("read_file");
    reveal_strlit("write_file");
    reveal_strlit("edit_file");
    reveal_strlit("list_files");
    reveal_strlit("search");
    reveal_strlit("run_command");
    reveal_strlit("find_file");
    assert("find_symbol"@[0] != "run_command"@[0]);
    let keys = seq!["name"@, "limit"@];
    assert(keys[0] == "name"@);
    assert(keys[1] == "limit"@);
    assert(tool_name(find_symbol_tool()) == "find_symbol"@);
    assert(allowed("find_symbol"@) == Some(keys));
    assert(properties_of(find_symbol_tool())->Some_0->Object_0.dom() =~= keys.to_set());
}

proof fn lemma_todo_write_tool()
    ensures
        describes_itself(todo_write_tool()),
{
    lemma_parts();
    reveal_strlit("todo_write");
    reveal_strlit("read_file");
    reveal_strlit("write_file");
    reveal_strlit("edit_file");
    reveal_strlit("list_files");
    reveal_strlit("search");
    reveal_strlit("run_command");
    reveal_strlit("find_file");
    reveal_strlit("find_symbol");
    assert("todo_write"@[0] != "write_file"@[0]);
    assert("todo_write"@[0] != "list_files"@[0]);
    let keys = seq!["todos"@, "merge"@];
    assert(keys[0] == "todos"@);
    assert(keys[1] == "merge"@);
    assert(tool_name(todo_write_tool()) == "todo_write"@);
    assert(allowed("todo_write"@) == Some(keys));
    assert(properties_of(todo_write_tool())->Some_0->Object_0.dom() =~= keys.to_set());
}

proof fn lemma_todo_read_tool()
    ensures
        describes_itself(todo_read_tool()),
{
    lemma_parts();
    reveal_strlit("todo_read");
    reveal_strlit("read_file");
    reveal_strlit("write_file");
    reveal_strlit("edit_file");
    reveal_strlit("list_files");
    reveal_strlit("search");
    reveal_strlit("run_command");
    reveal_strlit("find_file");
    reveal_strlit("find_symbol");
    reveal_strlit("todo_write");
    assert("todo_read"@[0] != "read_file"@[0]);
    assert("todo_read"@[0] != "edit_file"@[0]);
    assert("todo_read"@[0] != "find_file"@[0]);
    let keys = Seq::<Seq<char>>::empty();
    assert(tool_name(todo_read_tool()) == "todo_read"@);
    assert(allowed("todo_read"@) == Some(keys));
    assert(properties_of(todo_read_tool())->Some_0->Object_0.dom() =~= keys.to_set());
}

proof fn lemma_submit_tool()
    ensures
        describes_itself(submit_tool()),
{
    lemma_parts();
    reveal_strlit("submit");
    reveal_strlit("read_file");
    reveal_strlit("write_file");
    reveal_strlit("edit_file");
    reveal_strlit("list_files");
    reveal_strlit("search");
    reveal_strlit("run_command");
    reveal_strlit("find_file");
    reveal_strlit("find_symbol");
    reveal_strlit("todo_write");
    reveal_strlit("todo_read");
    assert("submit"@[1] != "search"@[1]);
    let keys = seq!["summary"@];
    assert(keys[0] == "summary"@);
    assert(tool_name(submit_tool()) == "submit"@);
    assert(allowed("submit"@) == Some(keys));
    assert(properties_of(submit_tool())->Some_0->Object_0.dom() =~= keys.to_set());
}

proof fn lemma_definition_parts(i: int)
    requires
        0 <= i < definitions().len(),
    ensures
        describes_itself(definitions()[i]),
{
    lemma_read_file_tool();
    lemma_write_file_tool();
    lemma_edit_file_tool();
    lemma_list_files_tool();
    lemma_search_tool();
    lemma_run_command_tool();
    lemma_find_file_tool();
    lemma_find_symbol_tool();
    lemma_todo_write_tool();
    lemma_todo_read_tool();
    lemma_submit_tool();
}

/// The schema of every tool lists exactly the arguments that the check of its calls takes.
pub proof fn law_schema_matches_check(i: int)
    requires
        0 <= i < definitions().len(),
    ensures
        describes_itself(definitions()[i]),
{
    lemma_definition_parts(i);
}

/// What the user reads while a tool is at work.
pub proof fn law_status_labels(name: Seq<char>)
    ensures
        status_label("read_file"@) == "Reading file..."@,
        status_label("write_file"@) == "Writing file..."@,
        status_label("edit_file"@) == "Editing file..."@,
        status_label("list_files"@) == "Exploring files..."@,
        status_label("search"@) == "Searching codebase..."@,
        status_label("find_file"@) == "Finding file..."@,
        status_label("find_symbol"@) == "Looking up symbol..."@,
        status_label("todo_write"@) == "Updating task list..."@,
        status_label("todo_read"@) == "Reading task list..."@,
        status_label("run_command"@) == "Running command..."@,
        status_label("submit"@) == "Working..."@,
        allowed(name) is None ==> status_label(name) == "Working..."@,
{
    reveal_strlit("read_file");
    reveal_strlit("write_file");
    reveal_strlit("edit_file");
    reveal_strlit("list_files");
    reveal_strlit("search");
    reveal_strlit("run_command");
    reveal_strlit("find_file");
    reveal_strlit("find_symbol");
    reveal_strlit("todo_write");
    reveal_strlit("todo_read");
    reveal_strlit("submit");
    assert("read_file"@.len() == 9
        && "write_file"@.len() == 10
        && "edit_file"@.len() == 9
        && "list_files"@.len() == 10
        && "search"@.len() == 6
        && "run_command"@.len() == 11
        && "find_file"@.len() == 9
        && "find_symbol"@.len() == 11
        && "todo_write"@.len() == 10
        && "todo_read"@.len() == 9
        && "submit"@.len() == 6
        && "read_file"@[0] == 'r'
        && "edit_file"@[0] == 'e'
        && "find_file"@[0] == 'f'
        && "todo_read"@[0] == 't'
        && "write_file"@[0] == 'w'
        && "list_files"@[0] == 'l'
        && "todo_write"@[0] == 't'
        && "search"@[1] == 'e'
        && "submit"@[1] == 'u'
        && "run_command"@[0] == 'r'
        && "find_symbol"@[0] == 'f');
}

/// Every key of the arguments is one of these.
pub open spec fn keys_among(args: JsonV, ok: Seq<Seq<char>>) -> bool {
    args matches JsonV::Object(m) && forall|k: Seq<char>| #[trigger] m.contains_key(k) ==> ok.contains(k)
}

pub open spec fn is_int_or_null(args: JsonV, f: Seq<char>) -> bool {
    args.get(f) matches Some(v) ==> v is Null || v.uint() is Some || v.sint() is Some
}

pub open spec fn is_bool_or_null(args: JsonV, f: Seq<char>) -> bool {
    args.get(f) matches Some(v) ==> v is Null || v is Bool
}

pub open spec fn is_text_or_missing(args: JsonV, f: Seq<char>) -> bool {
    args.get(f) matches Some(v) ==> v is Text
}

/// The arguments of a call pass exactly when they are an object with the tool's keys, with all
/// values that the tool needs and of the kinds that it takes.
pub proof fn law_what_passes(args: JsonV)
    requires
        args is Object,
    ensures
        check_args("read_file"@, args) is None <==> keys_among(
            args,
            seq!["path"@, "offset"@, "limit"@],
        ) && args.get_text("path"@) is Some && is_int_or_null(args, "offset"@) && is_int_or_null(
            args,
            "limit"@,
        ),
        check_args("write_file"@, args) is None <==> keys_among(args, seq!["path"@, "content"@])
            && args.get_text("path"@) is Some && args.get_text("content"@) is Some,
        check_args("edit_file"@, args) is None <==> keys_among(
            args,
            seq!["path"@, "old_string"@, "new_string"@, "replace_all"@],
        ) && args.get_text("path"@) is Some && args.get_text("old_string"@) is Some && args.get_text(
            "new_string"@,
        ) is Some && is_bool_or_null(args, "replace_all"@),
        check_args("list_files"@, args) is None <==> keys_among(args, seq!["path"@])
            && args.get_text("path"@) is Some,
        check_args("search"@, args) is None <==> keys_among(args, seq!["query"@, "path"@])
            && args.get_text("query"@) is Some && args.get_text("path"@) is Some,
        check_args("run_command"@, args) is None <==> keys_among(
            args,
            seq!["command"@, "working_dir"@],
        ) && args.get_text("command"@) is Some && is_text_or_missing(args, "working_dir"@),
        check_args("find_file"@, args) is None <==> keys_among(args, seq!["name"@, "dir"@])
            && args.get_text("name"@) is Some && is_text_or_missing(args, "dir"@),
        check_args("find_symbol"@, args) is None <==> keys_among(args, seq!["name"@, "limit"@])
            && args.get_text("name"@) is Some && is_int_or_null(args, "limit"@),
        check_args("todo_read"@, args) is None <==> keys_among(args, Seq::<Seq<char>>::empty()),
        check_args("submit"@, args) is None <==> keys_among(args, seq!["summary"@])
            && args.get_text("summary"@) is Some,
{
    reveal_strlit("read_file");
    reveal_strlit("write_file");
    reveal_strlit("edit_file");
    reveal_strlit("list_files");
    reveal_strlit("search");
    reveal_strlit("run_command");
    reveal_strlit("find_file");
    reveal_strlit("find_symbol");
    reveal_strlit("todo_write");
    reveal_strlit("todo_read");
    reveal_strlit("submit");
    assert("read_file"@.len() == 9
        && "write_file"@.len() == 10
        && "edit_file"@.len() == 9
        && "list_files"@.len() == 10
        && "search"@.len() == 6
        && "run_command"@.len() == 11
        && "find_file"@.len() == 9
        && "find_symbol"@.len() == 11
        && "todo_write"@.len() == 10
        && "todo_read"@.len() == 9
        && "submit"@.len() == 6
        && "read_file"@[0] == 'r'
        && "edit_file"@[0] == 'e'
        && "find_file"@[0] == 'f'
        && "todo_read"@[0] == 't'
        && "write_file"@[0] == 'w'
        && "list_files"@[0] == 'l'
        && "todo_write"@[0] == 't'
        && "search"@[1] == 'e'
        && "submit"@[1] == 'u'
        && "run_command"@[0] == 'r'
        && "find_symbol"@[0] == 'f');
    assert(seq![] =~= Seq::<Seq<char>>::empty());
}

proof fn lemma_todos_pass(items: Seq<JsonV>, i: int)
    requires
        0 <= i <= items.len(),
    ensures
        check_todos(items, i) is None <==> forall|j: int|
            i <= j < items.len() ==> check_todo(j, #[trigger] items[j]) is None,
    decreases items.len() - i,
{
    if i < items.len() {
        lemma_todos_pass(items, i + 1);
        if check_todos(items, i) is None {
            assert forall|j: int| i <= j < items.len() implies check_todo(j, #[trigger] items[j])
                is None by {
                if j > i {
                    assert(check_todo(j, items[j]) is None);
                }
            }
        } else if forall|j: int|
            i <= j < items.len() ==> check_todo(j, #[trigger] items[j]) is None {
            assert(check_todo(i, items[i]) is None);
        }
    }
}

/// A todo list passes exactly when every item has an id and a content that are not blank and one of
/// the four states.
pub proof fn law_what_todos_pass(args: JsonV, items: Seq<JsonV>)
    requires
        args.get("todos"@) == Some(JsonV::Array(items)),
    ensures
        check_args("todo_write"@, args) is None <==> keys_among(args, seq!["todos"@, "merge"@])
            && is_bool_or_null(args, "merge"@) && forall|i: int|
            #![trigger items[i]]
            0 <= i < items.len() ==> {
                &&& items[i].get_text("id"@) is Some && !text::is_blank(
                    items[i].get_text("id"@)->0,
                )
                &&& items[i].get_text("content"@) is Some && !text::is_blank(
                    items[i].get_text("content"@)->0,
                )
                &&& items[i].get_text("status"@) is Some
                &&& ({
                    let s = items[i].get_text("status"@)->0;
                    s == "pending"@ || s == "in_progress"@ || s == "completed"@ || s
                        == "cancelled"@
                })
            },
{
    reveal_strlit("read_file");
    reveal_strlit("write_file");
    reveal_strlit("edit_file");
    reveal_strlit("list_files");
    reveal_strlit("search");
    reveal_strlit("run_command");
    reveal_strlit("find_file");
    reveal_strlit("find_symbol");
    reveal_strlit("todo_write");
    reveal_strlit("todo_read");
    reveal_strlit("submit");
    assert("read_file"@.len() == 9
        && "write_file"@.len() == 10
        && "edit_file"@.len() == 9
        && "list_files"@.len() == 10
        && "search"@.len() == 6
        && "run_command"@.len() == 11
        && "find_file"@.len() == 9
        && "find_symbol"@.len() == 11
        && "todo_write"@.len() == 10
        && "todo_read"@.len() == 9
        && "submit"@.len() == 6
        && "read_file"@[0] == 'r'
        && "edit_file"@[0] == 'e'
        && "find_file"@[0] == 'f'
        && "todo_read"@[0] == 't'
        && "write_file"@[0] == 'w'
        && "list_files"@[0] == 'l'
        && "todo_write"@[0] == 't'
        && "search"@[1] == 'e'
        && "submit"@[1] == 'u'
        && "run_command"@[0] == 'r'
        && "find_symbol"@[0] == 'f');
    lemma_todos_pass(items, 0);
    assert forall|i: int| 0 <= i < items.len() implies (check_todo(i, #[trigger] items[i]) is None
        <==> {
        &&& items[i].get_text("id"@) is Some && !text::is_blank(items[i].get_text("id"@)->0)
        &&& items[i].get_text("content"@) is Some && !text::is_blank(
            items[i].get_text("content"@)->0,
        )
        &&& items[i].get_text("status"@) is Some
        &&& session::valid_status(items[i].get_text("status"@)->0)
    }) by {}
}

/// How a refused call is told what is wrong.
pub proof fn law_complaints(args: JsonV, name: Seq<char>, m: Map<Seq<char>, JsonV>, k: Seq<char>)
    ensures
        !(args is Object) ==> check_args(name, args) == Some(
            "Tool arguments must be a JSON object"@,
        ),
        args is Object && allowed(name) is None ==> check_args(name, args) == Some(
            "Unknown tool: "@ + name,
        ),
        keys_among(args, seq!["path"@, "content"@]) && args.get("path"@) is None ==> check_args(
            "write_file"@,
            args,
        ) == Some("Missing required field '"@ + "path"@ + "'"@),
        keys_among(args, seq!["path"@, "content"@]) && args.get_text("path"@) is Some && (args.get(
            "content"@,
        ) matches Some(v) && !(v is Text)) ==> check_args("write_file"@, args) == Some(
            "Field '"@ + "content"@ + "' must be a string"@,
        ),
        args == JsonV::Object(m) && allowed(name) is Some && m.contains_key(k) && !allowed(
            name,
        )->0.contains(k) && (forall|j: Seq<char>| #[trigger]
            m.contains_key(j) && j != k ==> allowed(name)->0.contains(j)) ==> check_args(name, args)
            == Some("Unexpected argument '"@ + k + "' for tool '"@ + name + "'"@),
{
    reveal_strlit("read_file");
    reveal_strlit("write_file");
    reveal_strlit("edit_file");
    reveal_strlit("list_files");
    reveal_strlit("search");
    reveal_strlit("run_command");
    reveal_strlit("find_file");
    reveal_strlit("find_symbol");
    reveal_strlit("todo_write");
    reveal_strlit("todo_read");
    reveal_strlit("submit");
    assert("read_file"@.len() == 9
        && "write_file"@.len() == 10
        && "edit_file"@.len() == 9
        && "list_files"@.len() == 10
        && "search"@.len() == 6
        && "run_command"@.len() == 11
        && "find_file"@.len() == 9
        && "find_symbol"@.len() == 11
        && "todo_write"@.len() == 10
        && "todo_read"@.len() == 9
        && "submit"@.len() == 6
        && "read_file"@[0] == 'r'
        && "edit_file"@[0] == 'e'
        && "find_file"@[0] == 'f'
        && "todo_read"@[0] == 't'
        && "write_file"@[0] == 'w'
        && "list_files"@[0] == 'l'
        && "todo_write"@[0] == 't'
        && "search"@[1] == 'e'
        && "submit"@[1] == 'u'
        && "run_command"@[0] == 'r'
        && "find_symbol"@[0] == 'f');
    if args == JsonV::Object(m) && allowed(name) is Some && m.contains_key(k) && !allowed(
        name,
    )->0.contains(k) && (forall|j: Seq<char>| #[trigger]
        m.contains_key(j) && j != k ==> allowed(name)->0.contains(j)) {
        let ok = allowed(name)->0;
        assert(first_unexpected(m, ok, k));
        let c = choose|c: Seq<char>| first_unexpected(m, ok, c);
        assert(first_unexpected(m, ok, c));
        assert(m.contains_key(c));
    }
}

/// The fields that only one provider knows are taken out, and everything else stays as it was.
pub proof fn law_only_two_fields_are_stripped(
    t: Map<Seq<char>, JsonV>,
    f: Map<Seq<char>, JsonV>,
    p: Map<Seq<char>, JsonV>,
    k: Seq<char>,
)
    requires
        t.contains_key("function"@),
        t["function"@] == JsonV::Object(f),
        f.contains_key("parameters"@),
        f["parameters"@] == JsonV::Object(p),
    ensures
        ({
            let r = stripped(JsonV::Object(t));
            let g = r.get("function"@)->0;
            let q = g.get("parameters"@)->0;
            &&& r.get("function"@) is Some && g.get("parameters"@) is Some
            &&& g.get("strict"@) is None
            &&& q.get("additionalProperties"@) is None
            &&& k != "function"@ ==> r.get(k) == JsonV::Object(t).get(k)
            &&& k != "strict"@ && k != "parameters"@ ==> g.get(k) == JsonV::Object(f).get(k)
            &&& k != "additionalProperties"@ ==> q.get(k) == JsonV::Object(p).get(k)
        }),
{
    reveal_strlit("strict");
    reveal_strlit("parameters");
    assert("strict"@.len() == 6 && "parameters"@.len() == 10);
}

/// A definition tells its tool's name, description, arguments and which of them are needed.
pub proof fn law_definitions(
    name: Seq<char>,
    description: Seq<char>,
    properties: Map<Seq<char>, JsonV>,
    required: Seq<Seq<char>>,
)
    ensures
        ({
            let d = definition(name, description, properties, required);
            let f = d.get("function"@)->0;
            let p = f.get("parameters"@)->0;
            &&& d.get_text("type"@) == Some("function"@)
            &&& d.get("function"@) is Some && f.get("parameters"@) is Some
            &&& f.get_text("name"@) == Some(name)
            &&& f.get_text("description"@) == Some(description)
            &&& f.get_bool("strict"@) == Some(true)
            &&& p.get_text("type"@) == Some("object"@)
            &&& p.get_bool("additionalProperties"@) == Some(false)
            &&& p.get("properties"@) == Some(JsonV::Object(properties))
            &&& p.get_items("required"@) is Some && p.get_items("required"@)->0.len()
                == required.len()
            &&& forall|i: int|
                0 <= i < required.len() ==> #[trigger] p.get_items("required"@)->0[i]
                    == JsonV::Text(required[i])
        }),
{
    reveal_strlit("type");
    reveal_strlit("function");
    reveal_strlit("name");
    reveal_strlit("description");
    reveal_strlit("strict");
    reveal_strlit("parameters");
    reveal_strlit("additionalProperties");
    reveal_strlit("properties");
    reveal_strlit("required");
    assert("type"@.len() == 4
        && "function"@.len() == 8
        && "name"@.len() == 4
        && "description"@.len() == 11
        && "strict"@.len() == 6
        && "parameters"@.len() == 10
        && "additionalProperties"@.len() == 20
        && "properties"@.len() == 10
        && "required"@.len() == 8
        && "type"@[0] == 't'
        && "name"@[0] == 'n'
        && "function"@[0] == 'f'
        && "required"@[0] == 'r'
        && "parameters"@[1] == 'a'
        && "properties"@[1] == 'r');
    let p = schema(properties, required);
    assert(p.get("required"@) == Some(JsonV::Array(name_list(required))));
}

/// Which tools there are, in order, and what each needs.
pub proof fn law_the_tools()
    ensures
        definitions().len() == 11,
        tool_name(definitions()[0]) == "read_file"@,
        tool_name(definitions()[1]) == "write_file"@,
        tool_name(definitions()[2]) == "edit_file"@,
        tool_name(definitions()[3]) == "list_files"@,
        tool_name(definitions()[4]) == "search"@,
        tool_name(definitions()[5]) == "run_command"@,
        tool_name(definitions()[6]) == "find_file"@,
        tool_name(definitions()[7]) == "find_symbol"@,
        tool_name(definitions()[8]) == "todo_write"@,
        tool_name(definitions()[9]) == "todo_read"@,
        tool_name(definitions()[10]) == "submit"@,
{
    lemma_parts();
}

/// Outside of agent mode exactly the three tools that change something are left out.
pub proof fn law_what_is_offered(tool: JsonV, mode: AgentMode)
    requires
        tool.get("function"@) is Some,
    ensures
        offered(tool, AgentMode::Agent),
        mode != AgentMode::Agent ==> (offered(tool, mode) <==> tool_name(tool) != "write_file"@
            && tool_name(tool) != "edit_file"@ && tool_name(tool) != "run_command"@),
{
}

/// The instructions go tool by tool: each that is offered has a paragraph with its name, its
/// description and its schema, whole; one that is not has none.
pub proof fn law_instructions(
    a: Seq<JsonV>,
    b: Seq<JsonV>,
    mode: AgentMode,
    tool: JsonV,
    f: JsonV,
    name: Seq<char>,
    description: Seq<char>,
    p: JsonV,
)
    ensures
        tool_sections(a + b, mode) == tool_sections(a, mode) + tool_sections(b, mode),
        !offered(tool, mode) ==> tool_sections(seq![tool], mode).len() == 0,
        offered(tool, mode) && tool.get("function"@) == Some(f) && f.get_text("name"@) == Some(name)
            && f.get_text("description"@) == Some(description) && f.get("parameters"@) == Some(p)
            ==> tool_sections(seq![tool], mode) == "\n### "@ + name + "\n"@ + description
            + "\nJSON Schema for `arguments`: "@ + json::printed(p) + "\n"@,
    decreases b.len(),
{
    assert(seq![tool].drop_last() =~= Seq::<JsonV>::empty());
    assert(tool_sections(Seq::<JsonV>::empty(), mode) =~= Seq::<char>::empty());
    assert(Seq::<char>::empty() + tool_section(tool) =~= tool_section(tool));
    if b.len() == 0 {
        assert(a + b =~= a);
        assert(tool_sections(a, mode) + tool_sections(b, mode) =~= tool_sections(a, mode));
    } else {
        law_instructions(a, b.drop_last(), mode, tool, f, name, description, p);
        assert((a + b).drop_last() =~= a + b.drop_last());
        assert(tool_sections(a + b, mode) =~= tool_sections(a, mode) + tool_sections(b, mode));
    }
}

} // verus!
