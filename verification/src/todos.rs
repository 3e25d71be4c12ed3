//! The todo list of a conversation: how a tool call replaces it, merges into it and reads it.
use vstd::prelude::*;

use crate::json;
use crate::json::Json;
use crate::json::JsonV;
use crate::reply;
use crate::session;
use crate::session::AgentState;
use crate::session::TodoItem;
use crate::session::TodoV;
use crate::text;

verus! {

pub open spec fn text_or_empty(s: Option<Seq<char>>) -> Seq<char> {
    match s {
        Some(t) => t,
        None => seq![],
    }
}

/// The todo item that a JSON value describes.
pub open spec fn todo_of(j: JsonV) -> TodoV {
    TodoV {
        id: text::trim(text_or_empty(j.get_text("id"@))),
        content: text::trim(text_or_empty(j.get_text("content"@))),
        status: text::trim(text_or_empty(j.get_text("status"@))),
    }
}

pub open spec fn valid_todo(t: TodoV) -> bool {
    t.id.len() > 0 && t.content.len() > 0 && session::valid_status(t.status)
}

pub open spec fn todos_in(items: Seq<JsonV>) -> Seq<TodoV> {
    items.map_values(|j: JsonV| todo_of(j))
}

pub open spec fn all_valid(items: Seq<TodoV>) -> bool {
    forall|i: int| 0 <= i < items.len() ==> valid_todo(#[trigger] items[i])
}

/// The first item with this id, looking from `from` on; the length of the list if none has
/// it.
pub open spec fn index_of(list: Seq<TodoV>, id: Seq<char>, from: int) -> int
    decreases list.len() - from,
{
    if from >= list.len() || list[from].id == id {
        from
    } else {
        index_of(list, id, from + 1)
    }
}

/// The list with `t` in place of the item with its id, or at the end.
pub open spec fn merge_one(list: Seq<TodoV>, t: TodoV) -> Seq<TodoV> {
    let i = index_of(list, t.id, 0);
    if i < list.len() {
        list.update(i, t)
    } else {
        list.push(t)
    }
}

/// The list with all of `incoming` merged in, in order.
pub open spec fn merge_all(list: Seq<TodoV>, incoming: Seq<TodoV>) -> Seq<TodoV>
    decreases incoming.len(),
{
    if incoming.len() == 0 {
        list
    } else {
        merge_one(merge_all(list, incoming.drop_last()), incoming.last())
    }
}

pub open spec fn count_status(list: Seq<TodoV>, status: Seq<char>) -> nat
    decreases list.len(),
{
    if list.len() == 0 {
        0
    } else {
        count_status(list.drop_last(), status) + if list.last().status == status {
            1nat
        } else {
            0nat
        }
    }
}

pub open spec fn todo_json(t: TodoV) -> JsonV {
    JsonV::Object(
        json::no_members().insert("id"@, JsonV::Text(t.id)).insert(
            "content"@,
            JsonV::Text(t.content),
        ).insert("status"@, JsonV::Text(t.status)),
    )
}

pub open spec fn todos_json(list: Seq<TodoV>) -> JsonV {
    JsonV::Array(list.map_values(|t: TodoV| todo_json(t)))
}

pub open spec fn number(n: nat) -> JsonV {
    JsonV::Number(json::uint(n as u64))
}

/// What writing the todo list answers.
pub open spec fn written_reply(list: Seq<TodoV>, merge: bool) -> Seq<char> {
    reply::success_reply(
        JsonV::Object(
            json::no_members().insert("updated"@, JsonV::Bool(true)).insert(
                "merge"@,
                JsonV::Bool(merge),
            ).insert(
                "counts"@,
                JsonV::Object(
                    json::no_members().insert("total"@, number(list.len())).insert(
                        "pending"@,
                        number(count_status(list, "pending"@)),
                    ).insert("in_progress"@, number(count_status(list, "in_progress"@))).insert(
                        "completed"@,
                        number(count_status(list, "completed"@)),
                    ),
                ),
            ).insert("todos"@, todos_json(list)),
        ),
    )
}

/// What reading the todo list answers.
pub open spec fn read_reply(list: Seq<TodoV>) -> Seq<char> {
    reply::success_reply(
        JsonV::Object(
            json::no_members().insert("todos"@, todos_json(list)).insert(
                "total"@,
                number(list.len()),
            ),
        ),
    )
}

pub open spec fn invalid_item_reply() -> Seq<char> {
    reply::error_reply(
        "INVALID_TODO_ITEM"@,
        "Each todo item must include non-empty id/content and status in: pending, in_progress, completed, cancelled."@,
        false,
    )
}

fn trimmed_field(j: &Json, k: &str) -> (r: String)
    ensures
        r@ == text::trim(text_or_empty(j@.get_text(k@))),
{
    match j.get_str(k) {
        Some(s) => text::str_trim(s),
        None => {
            let none = String::new();
            proof {
                assert(none@ =~= text::trim(Seq::<char>::empty()));
            }
            none
        },
    }
}

/// Reads the items of a todo list; fails when one of them is not valid.
pub fn parse_todos(items: &Vec<Json>) -> (r: Option<Vec<TodoItem>>)
    ensures
        match r {
            Some(v) => session::todo_views(v@) == todos_in(json::views(items@)) && all_valid(
                todos_in(json::views(items@)),
            ),
            None => !all_valid(todos_in(json::views(items@))),
        },
{
    let ghost all = todos_in(json::views(items@));
    let mut out: Vec<TodoItem> = Vec::new();
    let mut i: usize = 0;
    while i < items.len()
        invariant
            all == todos_in(json::views(items@)),
            i == out@.len(),
            i <= items@.len(),
            forall|j: int| 0 <= j < i ==> (#[trigger] out@[j])@ == all[j] && valid_todo(all[j]),
        decreases items.len() - i,
    {
        let t = TodoItem {
            id: trimmed_field(&items[i], "id"),
            content: trimmed_field(&items[i], "content"),
            status: trimmed_field(&items[i], "status"),
        };
        proof {
            assert(t@ == all[i as int]);
        }
        if t.id.as_str().is_empty() || t.content.as_str().is_empty()
            || !session::is_valid_todo_status(t.status.as_str()) {
            proof {
                assert(!valid_todo(all[i as int]));
            }
            return None;
        }
        proof {
            assert(valid_todo(t@));
        }
        out.push(t);
        i = i + 1;
    }
    proof {
        assert(session::todo_views(out@) =~= all);
    }
    Some(out)
}

fn merge_item(list: &mut Vec<TodoItem>, t: TodoItem)
    ensures
        session::todo_views(final(list)@) == merge_one(session::todo_views(old(list)@), t@),
{
    let ghost before = session::todo_views(list@);
    let mut i: usize = 0;
    while i < list.len() && !text::str_eq(list[i].id.as_str(), t.id.as_str())
        invariant
            before == session::todo_views(list@),
            i <= list@.len(),
            index_of(before, t@.id, 0) == index_of(before, t@.id, i as int),
        decreases list.len() - i,
    {
        i = i + 1;
    }
    if i < list.len() {
        list.set(i, t);
        proof {
            assert(session::todo_views(list@) =~= before.update(i as int, t@));
        }
    } else {
        list.push(t);
        proof {
            assert(session::todo_views(list@) =~= before.push(t@));
        }
    }
}

/// Merges items by id into a list: one with a known id takes its place, a new one goes to
/// the end.
pub fn merge_todos(list: &mut Vec<TodoItem>, incoming: Vec<TodoItem>)
    ensures
        session::todo_views(final(list)@) == merge_all(
            session::todo_views(old(list)@),
            session::todo_views(incoming@),
        ),
{
    let ghost before = session::todo_views(list@);
    let ghost all = session::todo_views(incoming@);
    let mut i: usize = 0;
    proof {
        assert(all.take(0) =~= Seq::<TodoV>::empty());
    }
    while i < incoming.len()
        invariant
            all == session::todo_views(incoming@),
            i <= incoming@.len(),
            session::todo_views(list@) == merge_all(before, all.take(i as int)),
        decreases incoming.len() - i,
    {
        proof {
            assert(all.take(i as int + 1).drop_last() =~= all.take(i as int));
            assert(all.take(i as int + 1).last() == incoming@[i as int]@);
        }
        merge_item(list, incoming[i].copy());
        i = i + 1;
    }
    proof {
        assert(all.take(i as int) =~= all);
    }
}

fn count_with(list: &Vec<TodoItem>, status: &str) -> (n: usize)
    ensures
        n == count_status(session::todo_views(list@), status@),
{
    let ghost all = session::todo_views(list@);
    let mut n: usize = 0;
    let mut i: usize = 0;
    proof {
        assert(all.take(0) =~= Seq::<TodoV>::empty());
    }
    while i < list.len()
        invariant
            all == session::todo_views(list@),
            i <= list@.len(),
            n <= i,
            n == count_status(all.take(i as int), status@),
        decreases list.len() - i,
    {
        proof {
            assert(all.take(i as int + 1).drop_last() =~= all.take(i as int));
            assert(all.take(i as int + 1).last() == list@[i as int]@);
        }
        if text::str_eq(list[i].status.as_str(), status) {
            n = n + 1;
        }
        i = i + 1;
    }
    proof {
        assert(all.take(i as int) =~= all);
    }
    n
}

fn list_json(list: &Vec<TodoItem>) -> (r: Json)
    ensures
        r@ == todos_json(session::todo_views(list@)),
{
    let ghost all = session::todo_views(list@);
    let mut out: Vec<Json> = Vec::new();
    let mut i: usize = 0;
    while i < list.len()
        invariant
            all == session::todo_views(list@),
            i == out@.len(),
            i <= list@.len(),
            forall|j: int| 0 <= j < i ==> (#[trigger] out@[j])@ == todo_json(all[j]),
        decreases list.len() - i,
    {
        let t = &list[i];
        out.push(
            Json::object().with_str("id", t.id.as_str()).with_str(
                "content",
                t.content.as_str(),
            ).with_str("status", t.status.as_str()),
        );
        i = i + 1;
    }
    let r = Json::Array(out);
    proof {
        assert(r@->Array_0 =~= all.map_values(|t: TodoV| todo_json(t)));
    }
    r
}

fn report_written(list: &Vec<TodoItem>, merge: bool) -> (r: String)
    ensures
        r@ == written_reply(session::todo_views(list@), merge),
{
    let counts = Json::object().with("total", Json::uint(list.len() as u64)).with(
        "pending",
        Json::uint(count_with(list, "pending") as u64),
    ).with("in_progress", Json::uint(count_with(list, "in_progress") as u64)).with(
        "completed",
        Json::uint(count_with(list, "completed") as u64),
    );
    reply::tool_success(
        Json::object().with("updated", Json::Bool(true)).with("merge", Json::Bool(merge)).with(
            "counts",
            counts,
        ).with("todos", list_json(list)),
    )
}

/// Writes the todo list of a session's conversation: replaces it, or merges into it.
pub fn todo_write(
    state: &mut AgentState,
    session_id: Option<&str>,
    merge: bool,
    items: Vec<TodoItem>,
) -> (r: String)
    ensures
        final(state).sessions == old(state).sessions,
        final(state).convs == old(state).convs,
        final(state).reads == old(state).reads,
        match session_id {
            None => final(state).todos == old(state).todos && r@ == reply::error_reply(
                "SESSION_REQUIRED"@,
                "todo_write requires an active agent session."@,
                false,
            ),
            Some(s) => ({
                let conv = session::conv_of(*old(state), s@);
                let list = if merge {
                    merge_all(session::todos_of(*old(state), conv), session::todo_views(items@))
                } else {
                    session::todo_views(items@)
                };
                &&& final(state).todos@.dom() == old(state).todos@.dom().insert(conv)
                &&& session::todos_of(*final(state), conv) == list
                &&& forall|c: Seq<char>|
                    c != conv && #[trigger] old(state).todos@.contains_key(c)
                        ==> final(state).todos@[c] == old(state).todos@[c]
                &&& r@ == written_reply(list, merge)
            }),
        },
{
    match session_id {
        None => reply::tool_error(
            "SESSION_REQUIRED",
            "todo_write requires an active agent session.",
            false,
        ),
        Some(s) => {
            let conv = state.conv_for_session(s);
            let ghost before = *state;
            let mut list = match state.todos.remove(conv.as_str()) {
                Some(v) => v,
                None => Vec::new(),
            };
            proof {
                assert(session::todo_views(list@) =~= session::todos_of(before, conv@));
            }
            if merge {
                merge_todos(&mut list, items);
            } else {
                list = items;
            }
            let r = report_written(&list, merge);
            state.todos.insert(conv.as_str(), list);
            proof {
                assert(state.todos@.dom() =~= before.todos@.dom().insert(conv@));
            }
            r
        },
    }
}

/// Reads the todo list of a session's conversation.
pub fn todo_read(state: &AgentState, session_id: Option<&str>) -> (r: String)
    ensures
        match session_id {
            None => r@ == reply::error_reply(
                "SESSION_REQUIRED"@,
                "todo_read requires an active agent session."@,
                false,
            ),
            Some(s) => r@ == read_reply(
                session::todos_of(*state, session::conv_of(*state, s@)),
            ),
        },
{
    match session_id {
        None => reply::tool_error(
            "SESSION_REQUIRED",
            "todo_read requires an active agent session.",
            false,
        ),
        Some(s) => {
            let conv = state.conv_for_session(s);
            let none: Vec<TodoItem> = Vec::new();
            let list = match state.todos.get(conv.as_str()) {
                Some(v) => v,
                None => &none,
            };
            proof {
                assert(session::todo_views(list@) =~= session::todos_of(*state, conv@));
            }
            reply::tool_success(
                Json::object().with("todos", list_json(list)).with(
                    "total",
                    Json::uint(list.len() as u64),
                ),
            )
        },
    }
}

// ---- laws ---------------------------------------------------------------------------------

pub open spec fn ids_distinct(list: Seq<TodoV>) -> bool {
    forall|i: int, j: int|
        0 <= i < j < list.len() ==> (#[trigger] list[i]).id != (#[trigger] list[j]).id
}

proof fn lemma_index_of(list: Seq<TodoV>, id: Seq<char>, from: int)
    requires
        0 <= from <= list.len(),
    ensures
        from <= index_of(list, id, from) <= list.len(),
        index_of(list, id, from) < list.len() ==> list[index_of(list, id, from)].id == id,
        forall|i: int|
            from <= i < index_of(list, id, from) ==> (#[trigger] list[i]).id != id,
    decreases list.len() - from,
{
    if from < list.len() && list[from].id != id {
        lemma_index_of(list, id, from + 1);
    }
}

/// Merging by id never makes two items share an id, and drops no item of the list: each
/// keeps its place, and one that nothing incoming names stays as it was.
pub proof fn law_merge(list: Seq<TodoV>, incoming: Seq<TodoV>)
    requires
        ids_distinct(list),
    ensures
        ids_distinct(merge_all(list, incoming)),
        merge_all(list, incoming).len() >= list.len(),
        forall|i: int|
            0 <= i < list.len() ==> (#[trigger] merge_all(list, incoming)[i]).id == list[i].id,
        forall|i: int|
            0 <= i < list.len() && (forall|j: int|
                0 <= j < incoming.len() ==> (#[trigger] incoming[j]).id != list[i].id)
                ==> #[trigger] merge_all(list, incoming)[i] == list[i],
        incoming.len() > 0 ==> merge_all(list, incoming).contains(incoming.last()),
    decreases incoming.len(),
{
    if incoming.len() > 0 {
        let before = incoming.drop_last();
        law_merge(list, before);
        let mid = merge_all(list, before);
        let t = incoming.last();
        lemma_index_of(mid, t.id, 0);
        let k = index_of(mid, t.id, 0);
        let out = merge_all(list, incoming);
        if k < mid.len() {
            assert(out[k] == t);
        } else {
            assert(out[mid.len() as int] == t);
        }
        assert forall|i: int, j: int| 0 <= i < j < out.len() implies (#[trigger] out[i]).id != (
        #[trigger] out[j]).id by {
            if j < mid.len() {
                assert(mid[i].id != mid[j].id);
            } else {
                assert(mid[i].id != t.id);
            }
        }
        assert forall|i: int|
            0 <= i < list.len() && (forall|j: int|
                0 <= j < incoming.len() ==> (#[trigger] incoming[j]).id != list[i].id) implies
            #[trigger] out[i] == list[i] by {
            assert(incoming[incoming.len() - 1].id != list[i].id);
            assert forall|j: int| 0 <= j < before.len() implies (#[trigger] before[j]).id
                != list[i].id by {
                assert(incoming[j].id != list[i].id);
            }
            assert(mid[i] == list[i]);
        }
    }
}

proof fn lemma_merged_items(list: Seq<TodoV>, incoming: Seq<TodoV>, i: int)
    requires
        0 <= i < merge_all(list, incoming).len(),
    ensures
        list.contains(merge_all(list, incoming)[i]) || incoming.contains(
            merge_all(list, incoming)[i],
        ),
    decreases incoming.len(),
{
    if incoming.len() == 0 {
        assert(list[i] == merge_all(list, incoming)[i]);
    } else {
        let before = incoming.drop_last();
        let mid = merge_all(list, before);
        let t = incoming.last();
        lemma_index_of(mid, t.id, 0);
        let out = merge_all(list, incoming);
        if out[i] == t {
            assert(incoming[incoming.len() - 1] == t);
        } else {
            assert(i < mid.len());
            assert(out[i] == mid[i]);
            lemma_merged_items(list, before, i);
            if before.contains(mid[i]) {
                let j = choose|j: int| 0 <= j < before.len() && before[j] == mid[i];
                assert(incoming[j] == mid[i]);
            }
        }
    }
}

proof fn lemma_last_word(list: Seq<TodoV>, incoming: Seq<TodoV>, j: int)
    requires
        0 <= j < incoming.len(),
        forall|k: int| j < k < incoming.len() ==> (#[trigger] incoming[k]).id != incoming[j].id,
    ensures
        merge_all(list, incoming).contains(incoming[j]),
    decreases incoming.len(),
{
    let before = incoming.drop_last();
    let mid = merge_all(list, before);
    let t = incoming.last();
    lemma_index_of(mid, t.id, 0);
    let k = index_of(mid, t.id, 0);
    let out = merge_all(list, incoming);
    if j == incoming.len() - 1 {
        if k < mid.len() {
            assert(out[k] == t);
        } else {
            assert(out[mid.len() as int] == t);
        }
    } else {
        assert(before[j] == incoming[j]);
        assert forall|q: int| j < q < before.len() implies (#[trigger] before[q]).id != before[j].id by {
            assert(incoming[q].id != incoming[j].id);
        }
        lemma_last_word(list, before, j);
        let p = choose|p: int| 0 <= p < mid.len() && mid[p] == incoming[j];
        assert(incoming[incoming.len() - 1].id != incoming[j].id);
        assert(out[p] == incoming[j]);
    }
}

/// Merging takes every incoming item as it is, the last word of each id, and makes nothing up: each
/// item of the result is one of the list or one that came in.
pub proof fn law_merge_takes_what_comes(list: Seq<TodoV>, incoming: Seq<TodoV>)
    ensures
        forall|j: int|
            0 <= j < incoming.len() && (forall|k: int|
                j < k < incoming.len() ==> (#[trigger] incoming[k]).id != incoming[j].id)
                ==> merge_all(list, incoming).contains(#[trigger] incoming[j]),
        forall|i: int|
            0 <= i < merge_all(list, incoming).len() ==> list.contains(
                #[trigger] merge_all(list, incoming)[i],
            ) || incoming.contains(merge_all(list, incoming)[i]),
        merge_all(list, Seq::empty()) == list,
{
    assert forall|j: int|
        0 <= j < incoming.len() && (forall|k: int|
            j < k < incoming.len() ==> (#[trigger] incoming[k]).id != incoming[j].id) implies merge_all(
        list,
        incoming,
    ).contains(#[trigger] incoming[j]) by {
        lemma_last_word(list, incoming, j);
    }
    assert forall|i: int| 0 <= i < merge_all(list, incoming).len() implies list.contains(
        #[trigger] merge_all(list, incoming)[i],
    ) || incoming.contains(merge_all(list, incoming)[i]) by {
        lemma_merged_items(list, incoming, i);
    }
}

/// An item is read member by member, trimmed, and counts only with an id, a content and one of the
/// four states.
pub proof fn law_items_are_read(j: JsonV, id: Seq<char>, content: Seq<char>, status: Seq<char>)
    requires
        j.get_text("id"@) == Some(id),
        j.get_text("content"@) == Some(content),
        j.get_text("status"@) == Some(status),
    ensures
        todo_of(j).id == text::trim(id),
        todo_of(j).content == text::trim(content),
        todo_of(j).status == text::trim(status),
        valid_todo(todo_of(j)) <==> text::trim(id).len() > 0 && text::trim(content).len() > 0 && (
        text::trim(status) == "pending"@ || text::trim(status) == "in_progress"@ || text::trim(
            status,
        ) == "completed"@ || text::trim(status) == "cancelled"@),
{
}

proof fn lemma_count(list: Seq<TodoV>, status: Seq<char>)
    ensures
        count_status(list, status) == list.filter(|t: TodoV| t.status == status).len(),
    decreases list.len(),
{
    reveal(Seq::filter);
    let of = |t: TodoV| t.status == status;
    if list.len() > 0 {
        lemma_count(list.drop_last(), status);
        let f = list.drop_last().filter(of);
        if list.last().status == status {
            assert(list.filter(of) =~= f.push(list.last()));
        } else {
            assert(list.filter(of) =~= f);
        }
    }
}

/// The value is the item, member by member.
pub open spec fn is_item(v: JsonV, t: TodoV) -> bool {
    v.get_text("id"@) == Some(t.id) && v.get_text("content"@) == Some(t.content) && v.get_text(
        "status"@,
    ) == Some(t.status)
}

/// The value lists the items, all of them and in order.
pub open spec fn lists(v: JsonV, list: Seq<TodoV>) -> bool {
    v matches JsonV::Array(items) && items.len() == list.len() && forall|i: int|
        0 <= i < list.len() ==> is_item(#[trigger] items[i], list[i])
}

pub open spec fn counted(list: Seq<TodoV>, status: Seq<char>) -> JsonV {
    JsonV::Number(json::uint(list.filter(|t: TodoV| t.status == status).len() as u64))
}

/// The value tells of a written list.
pub open spec fn tells_of_list(v: JsonV, list: Seq<TodoV>, merge: bool) -> bool {
    &&& v.get_bool("merge"@) == Some(merge)
    &&& v.get("todos"@) is Some && lists(v.get("todos"@)->0, list)
    &&& v.get("counts"@) is Some
    &&& v.get("counts"@)->0.get("total"@) == Some(JsonV::Number(json::uint(list.len() as u64)))
    &&& v.get("counts"@)->0.get("pending"@) == Some(counted(list, "pending"@))
    &&& v.get("counts"@)->0.get("in_progress"@) == Some(counted(list, "in_progress"@))
    &&& v.get("counts"@)->0.get("completed"@) == Some(counted(list, "completed"@))
}

proof fn lemma_lists(list: Seq<TodoV>)
    ensures
        lists(todos_json(list), list),
{
    reveal_strlit("id");
    reveal_strlit("content");
    reveal_strlit("status");
    assert("id"@.len() == 2
        && "content"@.len() == 7
        && "status"@.len() == 6);
    let items = list.map_values(|t: TodoV| todo_json(t));
    assert forall|i: int| 0 <= i < list.len() implies is_item(#[trigger] items[i], list[i]) by {
        assert(items[i] == todo_json(list[i]));
    }
}

/// The answer to writing the list tells every item, in order, and how many there are of each state.
pub proof fn law_written_list_is_told(list: Seq<TodoV>, merge: bool)
    ensures
        exists|v: JsonV|
            written_reply(list, merge) == #[trigger] reply::success_reply(v) && tells_of_list(
                v,
                list,
                merge,
            ),
{
    reveal_strlit("updated");
    reveal_strlit("merge");
    reveal_strlit("counts");
    reveal_strlit("todos");
    reveal_strlit("total");
    reveal_strlit("pending");
    reveal_strlit("in_progress");
    reveal_strlit("completed");
    assert("updated"@.len() == 7
        && "merge"@.len() == 5
        && "counts"@.len() == 6
        && "todos"@.len() == 5
        && "total"@.len() == 5
        && "pending"@.len() == 7
        && "in_progress"@.len() == 11
        && "completed"@.len() == 9
        && "updated"@[0] == 'u'
        && "pending"@[0] == 'p'
        && "merge"@[0] == 'm'
        && "todos"@[0] == 't'
        && "total"@[0] == 't'
        && "todos"@[2] == 'd'
        && "total"@[2] == 't');
    lemma_lists(list);
    lemma_count(list, "pending"@);
    lemma_count(list, "in_progress"@);
    lemma_count(list, "completed"@);
    let counts = JsonV::Object(
        json::no_members().insert("total"@, number(list.len())).insert(
            "pending"@,
            number(count_status(list, "pending"@)),
        ).insert("in_progress"@, number(count_status(list, "in_progress"@))).insert(
            "completed"@,
            number(count_status(list, "completed"@)),
        ),
    );
    assert(counts.get("total"@) == Some(number(list.len())));
    let v = JsonV::Object(
        json::no_members().insert("updated"@, JsonV::Bool(true)).insert(
            "merge"@,
            JsonV::Bool(merge),
        ).insert("counts"@, counts).insert("todos"@, todos_json(list)),
    );
    assert(tells_of_list(v, list, merge));
    assert(written_reply(list, merge) == reply::success_reply(v));
}

/// The answer to reading the list tells every item, in order, and how many there are.
pub proof fn law_list_is_told(list: Seq<TodoV>)
    ensures
        exists|v: JsonV|
            read_reply(list) == #[trigger] reply::success_reply(v) && v.get("todos"@) is Some
                && lists(v.get("todos"@)->0, list) && v.get("total"@) == Some(
                JsonV::Number(json::uint(list.len() as u64)),
            ),
{
    reveal_strlit("todos");
    reveal_strlit("total");
    assert("todos"@.len() == 5
        && "total"@.len() == 5
        && "todos"@[2] == 'd'
        && "total"@[2] == 't');
    lemma_lists(list);
    let v = JsonV::Object(
        json::no_members().insert("todos"@, todos_json(list)).insert("total"@, number(list.len())),
    );
    assert(v.get("todos"@) == Some(todos_json(list)));
    assert(read_reply(list) == reply::success_reply(v));
}

} // verus!
