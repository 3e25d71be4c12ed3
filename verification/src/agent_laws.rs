//! What holds of every run of the agent's loop.
use vstd::prelude::*;

use crate::agent_loop;
use crate::agent_loop::ActionV;
use crate::agent_loop::LoopEventV;
use crate::agent_loop::LoopV;
use crate::agent_loop::PhaseV;
use crate::calls;
use crate::calls::PreparedV;
use crate::conversation;
use crate::json::JsonV;
use crate::messages;
use crate::stream;
use crate::text;

verus! {

/// The calls that a phase works on, and how many of them are answered.
pub open spec fn at_work(p: PhaseV) -> Option<(Seq<PreparedV>, int)> {
    match p {
        PhaseV::Batch { calls, .. } => Some((calls, 0)),
        PhaseV::Taking { calls, next } => Some((calls, next)),
        PhaseV::Asking { calls, next } => Some((calls, next)),
        PhaseV::Running { calls, next } => Some((calls, next)),
        _ => None,
    }
}

/// The conversation ends with a message that declares the calls, followed by the answers to
/// the first `n` of them, in order.
pub open spec fn answered(conv: Seq<JsonV>, list: Seq<PreparedV>, n: int) -> bool {
    let o = conv.len() - n - 1;
    &&& 0 <= n <= list.len()
    &&& 0 <= o
    &&& !conversation::is_tool(conv[o])
    &&& forall|i: int|
        0 <= i < list.len() ==> conversation::declares(conv[o], Some((#[trigger] list[i]).id))
    &&& forall|i: int|
        0 <= i < n ==> conversation::is_tool(#[trigger] conv[o + 1 + i]) && conv[o + 1
            + i].get_text("tool_call_id"@) == Some(list[i].id)
}

/// Every tool message answers a declared call, and the calls at work are answered in order.
pub open spec fn orderly(st: LoopV) -> bool {
    &&& conversation::paired(st.conversation)
    &&& at_work(st.phase) matches Some(w) ==> answered(st.conversation, w.0, w.1)
}

proof fn lemma_push_plain(conv: Seq<JsonV>, m: JsonV)
    requires
        conversation::paired(conv),
        !conversation::is_tool(m),
    ensures
        conversation::paired(conv.push(m)),
{
    let c = conv.push(m);
    assert forall|i: int| 0 <= i < c.len() && conversation::is_tool(#[trigger] c[i]) implies {
        &&& conversation::owner(c, i) >= 0
        &&& conversation::declares(
            c[conversation::owner(c, i)],
            c[i].get_text("tool_call_id"@),
        )
    } by {
        assert(c[i] == conv[i]);
        lemma_owner_prefix(conv, m, i);
        lemma_owner_range(conv, i);
    }
}

proof fn lemma_owner_range(conv: Seq<JsonV>, i: int)
    requires
        -1 <= i < conv.len(),
    ensures
        -1 <= conversation::owner(conv, i) <= i,
    decreases i + 1,
{
    if i >= 0 && conversation::is_tool(conv[i]) {
        lemma_owner_range(conv, i - 1);
    }
}

proof fn lemma_owner_prefix(conv: Seq<JsonV>, m: JsonV, i: int)
    requires
        -1 <= i < conv.len(),
    ensures
        conversation::owner(conv.push(m), i) == conversation::owner(conv, i),
    decreases i + 1,
{
    if i >= 0 {
        assert(conv.push(m)[i] == conv[i]);
        if conversation::is_tool(conv[i]) {
            lemma_owner_prefix(conv, m, i - 1);
        }
    }
}

/// From inside a run of tool messages, the owner is the message before the run.
proof fn lemma_owner_of_run(conv: Seq<JsonV>, o: int, i: int)
    requires
        0 <= o <= i < conv.len(),
        !conversation::is_tool(conv[o]),
        forall|j: int| o < j <= i ==> conversation::is_tool(#[trigger] conv[j]),
    ensures
        conversation::owner(conv, i) == o,
    decreases i,
{
    if o < i {
        assert(conversation::is_tool(conv[i]));
        lemma_owner_of_run(conv, o, i - 1);
    }
}

proof fn lemma_tool_message(id: Seq<char>, content: Seq<char>)
    ensures
        conversation::is_tool(messages::tool_message_v(id, content)),
        messages::tool_message_v(id, content).get_text("tool_call_id"@) == Some(id),
{
    reveal_strlit("role");
    reveal_strlit("tool_call_id");
    reveal_strlit("content");
    assert("role"@.len() != "content"@.len());
    assert("role"@.len() != "tool_call_id"@.len());
    assert("content"@.len() != "tool_call_id"@.len());
}

proof fn lemma_text_message(role: Seq<char>, content: Seq<char>)
    requires
        role == "system"@ || role == "assistant"@,
    ensures
        !conversation::is_tool(messages::text_message_v(role, content)),
{
    reveal_strlit("role");
    reveal_strlit("content");
    reveal_strlit("tool");
    reveal_strlit("system");
    reveal_strlit("assistant");
    assert("role"@.len() != "content"@.len());
    assert("tool"@.len() != "system"@.len());
    assert("tool"@.len() != "assistant"@.len());
}

/// Answering the next call keeps the conversation orderly.
proof fn lemma_push_answer(conv: Seq<JsonV>, list: Seq<PreparedV>, n: int, content: Seq<char>)
    requires
        conversation::paired(conv),
        answered(conv, list, n),
        n < list.len(),
    ensures
        ({
            let c = conv.push(messages::tool_message_v(list[n].id, content));
            conversation::paired(c) && answered(c, list, n + 1)
        }),
{
    let m = messages::tool_message_v(list[n].id, content);
    lemma_tool_message(list[n].id, content);
    let c = conv.push(m);
    let o = conv.len() - n - 1;
    assert(c.len() - (n + 1) - 1 == o);
    assert(c[o] == conv[o]);
    assert forall|i: int| 0 <= i < n + 1 implies conversation::is_tool(#[trigger] c[o + 1 + i])
        && c[o + 1 + i].get_text("tool_call_id"@) == Some(list[i].id) by {
        if i < n {
            assert(c[o + 1 + i] == conv[o + 1 + i]);
        } else {
            assert(c[o + 1 + i] == m);
        }
    }
    assert(answered(c, list, n + 1));
    assert forall|i: int| 0 <= i < c.len() && conversation::is_tool(#[trigger] c[i]) implies {
        &&& conversation::owner(c, i) >= 0
        &&& conversation::declares(
            c[conversation::owner(c, i)],
            c[i].get_text("tool_call_id"@),
        )
    } by {
        if i < conv.len() {
            assert(c[i] == conv[i]);
            lemma_owner_prefix(conv, m, i);
            lemma_owner_range(conv, i);
        } else {
            assert forall|j: int| o < j <= i implies conversation::is_tool(#[trigger] c[j]) by {
                assert(c[j] == c[o + 1 + (j - o - 1)]);
            }
            lemma_owner_of_run(c, o, i);
            assert(conversation::declares(conv[o], Some(list[n].id)));
        }
    }
}

proof fn lemma_with_results(conv: Seq<JsonV>, list: Seq<PreparedV>, results: Seq<Seq<char>>)
    requires
        conversation::paired(conv),
        answered(conv, list, 0),
        results.len() <= list.len(),
    ensures
        ({
            let c = agent_loop::with_results(conv, list, results);
            conversation::paired(c) && answered(c, list, results.len() as int)
        }),
    decreases results.len(),
{
    if results.len() > 0 {
        lemma_with_results(conv, list, results.drop_last());
        lemma_push_answer(
            agent_loop::with_results(conv, list, results.drop_last()),
            list,
            results.len() - 1,
            calls::capped_result(results.last()),
        );
    }
}

/// The calls of a reply are declared by the message that carries them.
proof fn lemma_reply_answered(conv: Seq<JsonV>, content: Seq<char>, parts: Seq<
    (usize, stream::PartV),
>)
    requires
        conversation::paired(conv),
        parts.len() > 0,
    ensures
        conversation::paired(conv.push(calls::assistant_v(content, parts))),
        answered(
            conv.push(calls::assistant_v(content, parts)),
            agent_loop::prepared_all(parts),
            0,
        ),
{
    let m = calls::assistant_v(content, parts);
    calls::lemma_assistant_declares(content, parts, 0);
    lemma_push_plain(conv, m);
    let c = conv.push(m);
    let list = agent_loop::prepared_all(parts);
    assert(c[c.len() - 1] == m);
    assert forall|i: int| 0 <= i < list.len() implies conversation::declares(
        m,
        Some((#[trigger] list[i]).id),
    ) by {
        calls::lemma_assistant_declares(content, parts, i);
    }
}

/// The loop never orphans a tool message, and answers the calls of a reply one by one, in
/// the order in which they were made: what is orderly stays so with every event.
pub proof fn law_calls_are_answered(st: LoopV, ev: LoopEventV)
    requires
        agent_loop::loop_ok(st),
        agent_loop::awaited(st, ev),
        orderly(st),
    ensures
        orderly(agent_loop::stepped(st, ev).state),
{
    match (st.phase, ev) {
        (PhaseV::Starting, LoopEventV::Begin { cancelled, snapshot, clif }) => {
            lemma_refreshed(st, snapshot, clif);
            let fresh = agent_loop::refreshed(st, snapshot, clif);
            conversation::law_compaction_keeps_pairs(
                fresh.conversation,
                agent_loop::COMPACT_TARGET as nat,
            );
        },
        (PhaseV::Sent { .. }, LoopEventV::Rejected { status, shown, body }) => {
            conversation::law_compaction_keeps_pairs(
                st.conversation,
                agent_loop::OVERFLOW_TARGET as nat,
            );
        },
        (PhaseV::Streaming { vision, reply }, LoopEventV::StreamEnd) => {
            lemma_text_message("assistant"@, reply.content);
            let told = agent_loop::with_message(
                st,
                messages::text_message_v("assistant"@, reply.content),
            );
            lemma_push_plain(
                st.conversation,
                messages::text_message_v("assistant"@, reply.content),
            );
            assert forall|note: Seq<char>| conversation::paired(
                #[trigger] told.conversation.push(messages::text_message_v("system"@, note)),
            ) by {
                lemma_text_message("system"@, note);
                lemma_push_plain(
                    told.conversation,
                    messages::text_message_v("system"@, note),
                );
            }
            if reply.calls.len() > 0 {
                lemma_reply_answered(st.conversation, reply.content, reply.calls);
            }
        },
        (PhaseV::Batch { calls, count }, LoopEventV::Results(v)) => {
            lemma_with_results(st.conversation, calls, v);
        },
        (PhaseV::Taking { calls, next }, LoopEventV::Go { .. }) => {
            assert forall|c: Seq<char>| ({
                let conv = #[trigger] st.conversation.push(
                    messages::tool_message_v(calls[next].id, c),
                );
                conversation::paired(conv) && answered(conv, calls, next + 1)
            }) by {
                lemma_push_answer(st.conversation, calls, next, c);
            }
        },
        (PhaseV::Asking { calls, next }, LoopEventV::Answer(_)) => {
            lemma_push_answer(
                st.conversation,
                calls,
                next,
                calls::capped_result("Command blocked by user."@),
            );
        },
        (PhaseV::Running { calls, next }, LoopEventV::Result(r)) => {
            if let Some(s) = r {
                lemma_push_answer(st.conversation, calls, next, calls::capped_result(s));
            }
        },
        _ => {},
    }
}

proof fn lemma_refreshed(st: LoopV, snapshot: Option<Seq<char>>, clif: Option<Seq<char>>)
    requires
        conversation::paired(st.conversation),
    ensures
        conversation::paired(agent_loop::refreshed(st, snapshot, clif).conversation),
{
    let a = agent_loop::refreshed(st, snapshot, None);
    assert forall|s: Seq<char>| conversation::paired(
        #[trigger] st.conversation.push(messages::text_message_v("system"@, s)),
    ) by {
        lemma_text_message("system"@, s);
        lemma_push_plain(st.conversation, messages::text_message_v("system"@, s));
    }
    assert(conversation::paired(a.conversation));
    assert forall|s: Seq<char>| conversation::paired(
        #[trigger] a.conversation.push(messages::text_message_v("system"@, s)),
    ) by {
        lemma_text_message("system"@, s);
        lemma_push_plain(a.conversation, messages::text_message_v("system"@, s));
    }
}

/// When the loop has worked through the calls of a reply, all of them are answered.
pub proof fn law_no_call_is_skipped(st: LoopV, ev: LoopEventV)
    requires
        agent_loop::loop_ok(st),
        agent_loop::awaited(st, ev),
        orderly(st),
        at_work(st.phase) is Some,
        agent_loop::stepped(st, ev).state.phase is Starting,
    ensures
        ({
            let list = at_work(st.phase)->Some_0.0;
            answered(agent_loop::stepped(st, ev).state.conversation, list, list.len() as int)
        }),
{
    match (st.phase, ev) {
        (PhaseV::Batch { calls, count }, LoopEventV::Results(v)) => {
            lemma_with_results(st.conversation, calls, v);
        },
        (PhaseV::Taking { calls, next }, LoopEventV::Go { .. }) => {
            assert forall|c: Seq<char>| ({
                let conv = #[trigger] st.conversation.push(
                    messages::tool_message_v(calls[next].id, c),
                );
                conversation::paired(conv) && answered(conv, calls, next + 1)
            }) by {
                lemma_push_answer(st.conversation, calls, next, c);
            }
        },
        (PhaseV::Asking { calls, next }, LoopEventV::Answer(_)) => {
            lemma_push_answer(
                st.conversation,
                calls,
                next,
                calls::capped_result("Command blocked by user."@),
            );
        },
        (PhaseV::Running { calls, next }, LoopEventV::Result(r)) => {
            if let Some(s) = r {
                lemma_push_answer(st.conversation, calls, next, calls::capped_result(s));
            }
        },
        _ => {},
    }
}

/// None of the actions runs a call.
spec fn quiet(actions: Seq<ActionV>) -> bool {
    forall|i: int| 0 <= i < actions.len() ==> !(#[trigger] actions[i] is Execute)
}

proof fn lemma_quiet_add(a: Seq<ActionV>, b: Seq<ActionV>)
    requires
        quiet(a),
        quiet(b),
    ensures
        quiet(a + b),
{
    assert forall|i: int| 0 <= i < (a + b).len() implies !(#[trigger] (a + b)[i] is Execute) by {
        if i < a.len() {
            assert((a + b)[i] == a[i]);
        } else {
            assert((a + b)[i] == b[i - a.len()]);
        }
    }
}

proof fn lemma_begun_quiet(
    st: LoopV,
    cancelled: bool,
    snapshot: Option<Seq<char>>,
    clif: Option<Seq<char>>,
)
    ensures
        quiet(agent_loop::begun(st, cancelled, snapshot, clif).actions),
{
}

proof fn lemma_on_to_quiet(st: LoopV, list: Seq<PreparedV>, next: int)
    ensures
        quiet(agent_loop::next_turn(st).actions),
        quiet(agent_loop::on_to(st, list, next).actions),
{
}

proof fn lemma_batch_quiet(st: LoopV, list: Seq<PreparedV>, results: Seq<Seq<char>>)
    ensures
        quiet(agent_loop::batch_done(st, list, results).actions),
{
    let told = LoopV {
        conversation: agent_loop::with_results(st.conversation, list, results),
        ..st
    };
    lemma_on_to_quiet(told, list, results.len() as int);
    let shown = agent_loop::shown_results(list, results);
    assert(quiet(shown));
    lemma_quiet_add(shown, agent_loop::on_to(told, list, results.len() as int).actions);
}

proof fn lemma_finished_quiet(st: LoopV, list: Seq<PreparedV>, next: int, result: Seq<char>)
    ensures
        quiet(agent_loop::finished(st, list, next, result).actions),
{
    let p = list[next];
    let told = agent_loop::with_message(
        st,
        messages::tool_message_v(p.id, calls::capped_result(result)),
    );
    lemma_on_to_quiet(told, list, next + 1);
    let changed = match agent_loop::changed_file(p) {
        Some(f) => seq![ActionV::FileChanged { path: f }],
        None => Seq::<ActionV>::empty(),
    };
    let shown = changed + seq![ActionV::ShowResult { id: p.id, result }];
    lemma_quiet_add(changed, seq![ActionV::ShowResult { id: p.id, result }]);
    lemma_quiet_add(shown, agent_loop::on_to(told, list, next + 1).actions);
}

proof fn lemma_refused_quiet(st: LoopV, list: Seq<PreparedV>, next: int, e: Seq<char>)
    ensures
        quiet(agent_loop::refused(st, list, next, e).actions),
{
    let p = list[next];
    let answer = crate::reply::error_reply("INVALID_TOOL_ARGUMENTS"@, e, true);
    let told = agent_loop::with_message(st, messages::tool_message_v(p.id, answer));
    lemma_on_to_quiet(told, list, next + 1);
    let shown = seq![agent_loop::shown_call(p), ActionV::ShowResult { id: p.id, result: answer }];
    assert(quiet(shown));
    lemma_quiet_add(shown, agent_loop::on_to(told, list, next + 1).actions);
}

proof fn lemma_replied_quiet(st: LoopV, vision: bool, reply: stream::StreamV)
    ensures
        quiet(agent_loop::replied(st, vision, reply).actions),
{
    let m = agent_loop::replied(st, vision, reply);
    let usage = agent_loop::usage_actions(st, reply);
    assert(quiet(usage));
    let list = agent_loop::prepared_all(reply.calls);
    let n = calls::batch_len(list, 0) as int;
    if m.state.phase is Batch {
        let status = seq![ActionV::Status("Reading files..."@)];
        let shown = agent_loop::shown_calls(list.take(n));
        assert(quiet(shown));
        lemma_quiet_add(usage, status);
        lemma_quiet_add(usage + status, shown);
        lemma_quiet_add(usage + status + shown, seq![ActionV::RunBatch]);
    } else if m.state.phase is Starting {
        assert forall|told: LoopV| quiet(
            usage + #[trigger] agent_loop::next_turn(told).actions,
        ) by {
            lemma_on_to_quiet(told, list, 0);
            lemma_quiet_add(usage, agent_loop::next_turn(told).actions);
        }
    } else if m.state.phase is Over {
        assert forall|i: int| 0 <= i < m.actions.len() implies !(
        #[trigger] m.actions[i] is Execute) by {
            if i < usage.len() {
                assert(m.actions[i] == usage[i]);
            }
        }
    }
}

/// A command runs only after the user has agreed to it: an event that has a call run leaves
/// the loop at that call, and if it is a command, the event was the user's consent.
pub proof fn law_commands_need_consent(st: LoopV, ev: LoopEventV)
    requires
        agent_loop::loop_ok(st),
        agent_loop::awaited(st, ev),
        agent_loop::stepped(st, ev).actions.contains(ActionV::Execute),
    ensures
        ({
            let p = agent_loop::stepped(st, ev).state.phase;
            &&& p is Running
            &&& p matches PhaseV::Running { calls, next } ==> (calls[next].name == "run_command"@
                ==> ev == LoopEventV::Answer(Some(true)))
        }),
{
    let m = agent_loop::stepped(st, ev);
    let i = choose|i: int| 0 <= i < m.actions.len() && m.actions[i] == ActionV::Execute;
    assert(!quiet(m.actions)) by {
        assert(m.actions[i] is Execute);
    }
    match (st.phase, ev) {
        (PhaseV::Starting, LoopEventV::Begin { cancelled, snapshot, clif }) => {
            lemma_begun_quiet(st, cancelled, snapshot, clif);
        },
        (PhaseV::Streaming { reply, .. }, LoopEventV::Chunk { cancelled, text }) => {
            if let Ok(s) = text {
                let f = stream::fed(reply, s);
                assert(quiet(agent_loop::shown_events(f.1)));
            }
        },
        (PhaseV::Streaming { vision, reply }, LoopEventV::StreamEnd) => {
            lemma_replied_quiet(st, vision, reply);
        },
        (PhaseV::Batch { calls, .. }, LoopEventV::Results(v)) => {
            lemma_batch_quiet(st, calls, v);
        },
        (PhaseV::Taking { calls, next }, LoopEventV::Go { .. }) => {
            assert forall|e: Seq<char>| quiet(
                (#[trigger] agent_loop::refused(st, calls, next, e)).actions,
            ) by {
                lemma_refused_quiet(st, calls, next, e);
            }
        },
        (PhaseV::Asking { calls, next }, LoopEventV::Answer(_)) => {
            lemma_finished_quiet(st, calls, next, "Command blocked by user."@);
        },
        (PhaseV::Running { calls, next }, LoopEventV::Result(r)) => {
            if let Some(s) = r {
                lemma_finished_quiet(st, calls, next, s);
            }
        },
        _ => {},
    }
}

/// A message takes at most the turns that are allowed: the turn never decreases, grows by
/// at most one with each event, and the loop is over before it reaches the limit.
pub proof fn law_turns_are_limited(st: LoopV, ev: LoopEventV)
    requires
        agent_loop::loop_ok(st),
        agent_loop::awaited(st, ev),
    ensures
        ({
            let next = agent_loop::stepped(st, ev).state;
            &&& st.turn <= next.turn <= st.turn + 1
            &&& next.turn < agent_loop::MAX_TURNS
        }),
{
}

/// Calls that run side by side only read files.
pub proof fn law_batches_only_read(st: LoopV, ev: LoopEventV, i: int)
    requires
        agent_loop::loop_ok(st),
        agent_loop::awaited(st, ev),
        !(st.phase is Batch),
        agent_loop::stepped(st, ev).state.phase matches PhaseV::Batch { count, .. } && 0 <= i
            < count,
    ensures
        agent_loop::stepped(st, ev).state.phase matches PhaseV::Batch { calls, .. }
            && calls::batchable(calls[i]),
{
    if let PhaseV::Batch { calls: list, .. } = agent_loop::stepped(st, ev).state.phase {
        calls::law_batch_reads_only(list, i);
    }
}

/// The message answers the call with this text.
pub open spec fn answers(m: JsonV, id: Seq<char>, said: Seq<char>) -> bool {
    &&& m.get_text("role"@) == Some("tool"@)
    &&& m.get_text("tool_call_id"@) == Some(id)
    &&& m.get_text("content"@) == Some(said)
}

/// Where the loop goes when call `next` is dealt with: to the one behind it, or to the next turn, or
/// to its end where there were turns enough.
pub open spec fn goes_on(before: LoopV, after: LoopV, calls: Seq<PreparedV>, next: int) -> bool {
    if next + 1 < calls.len() {
        after.phase == (PhaseV::Taking { calls, next: next + 1 }) && after.turn == before.turn
    } else if before.turn < 199 {
        after.phase is Starting && after.turn == before.turn + 1
    } else {
        after.phase == PhaseV::Over(Ok(()))
    }
}

/// The result of a call enters the conversation behind all that is there, capped, as the answer to
/// that call; the user sees it whole, and is told of a file that was changed.
pub proof fn law_results_enter_the_conversation(
    st: LoopV,
    calls: Seq<PreparedV>,
    next: int,
    result: Seq<char>,
)
    requires
        st.phase == (PhaseV::Running { calls, next }),
        agent_loop::loop_ok(st),
    ensures
        ({
            let m = agent_loop::stepped(st, LoopEventV::Result(Some(result)));
            let p = calls[next];
            let n = st.conversation.len() as int;
            &&& m.state.conversation.len() == n + 1
            &&& m.state.conversation.take(n) == st.conversation
            &&& answers(m.state.conversation[n], p.id, calls::capped_result(result))
            &&& m.actions.contains(ActionV::ShowResult { id: p.id, result })
            &&& goes_on(st, m.state, calls, next)
            &&& forall|f: Seq<char>|
                m.actions.contains(#[trigger] file_changed(f)) <==> (p.name == "write_file"@ || p.name
                    == "edit_file"@) && (p.args matches Ok(args) && args.get_text("path"@) == Some(f))
        }),
{
    let m = agent_loop::stepped(st, LoopEventV::Result(Some(result)));
    let p = calls[next];
    messages::law_messages("tool"@, p.id, calls::capped_result(result));
    assert(m.state.conversation.take(st.conversation.len() as int) =~= st.conversation);
    let k: int = match agent_loop::changed_file(p) {
        Some(f) => 1,
        None => 0,
    };
    assert(m.actions[k] == (ActionV::ShowResult { id: p.id, result }));
    if let Some(f) = agent_loop::changed_file(p) {
        assert(m.actions[0] == file_changed(f));
    }
    assert forall|f: Seq<char>| m.actions.contains(#[trigger] file_changed(f)) implies (p.name
        == "write_file"@ || p.name == "edit_file"@) && (p.args matches Ok(args) && args.get_text(
        "path"@,
    ) == Some(f)) by {
        let i = choose|i: int| 0 <= i < m.actions.len() && m.actions[i] == file_changed(f);
        assert(i == 0 && k == 1);
    }
}

pub open spec fn file_changed(f: Seq<char>) -> ActionV {
    ActionV::FileChanged { path: f }
}

/// A command that the user does not allow is not run, and is answered with that.
pub proof fn law_blocked_commands_are_answered(st: LoopV, calls: Seq<PreparedV>, next: int)
    requires
        st.phase == (PhaseV::Asking { calls, next }),
        agent_loop::loop_ok(st),
    ensures
        ({
            let no = agent_loop::stepped(st, LoopEventV::Answer(Some(false)));
            let yes = agent_loop::stepped(st, LoopEventV::Answer(Some(true)));
            let n = st.conversation.len() as int;
            &&& no.state.conversation.len() == n + 1
            &&& no.state.conversation.take(n) == st.conversation
            &&& answers(
                no.state.conversation[n],
                calls[next].id,
                calls::capped_result("Command blocked by user."@),
            )
            &&& goes_on(st, no.state, calls, next)
            &&& yes.state == (LoopV { phase: PhaseV::Running { calls, next }, ..st })
            &&& yes.actions == seq![ActionV::Execute]
        }),
{
    let no = agent_loop::stepped(st, LoopEventV::Answer(Some(false)));
    messages::law_messages(
        "tool"@,
        calls[next].id,
        calls::capped_result("Command blocked by user."@),
    );
    assert(no.state.conversation.take(st.conversation.len() as int) =~= st.conversation);
}

proof fn lemma_results(conv: Seq<JsonV>, list: Seq<PreparedV>, results: Seq<Seq<char>>)
    ensures
        agent_loop::with_results(conv, list, results) == conv + Seq::new(
            results.len(),
            |i: int| messages::tool_message_v(list[i].id, calls::capped_result(results[i])),
        ),
    decreases results.len(),
{
    let tail = Seq::new(
        results.len(),
        |i: int| messages::tool_message_v(list[i].id, calls::capped_result(results[i])),
    );
    if results.len() == 0 {
        assert(conv + tail =~= conv);
    } else {
        let r = results.drop_last();
        lemma_results(conv, list, r);
        let front = Seq::new(
            r.len(),
            |i: int| messages::tool_message_v(list[i].id, calls::capped_result(r[i])),
        );
        assert(agent_loop::with_results(conv, list, results) =~= conv + tail) by {
            assert((conv + front).push(tail.last()) =~= conv + tail);
        }
    }
}

/// The results of calls that ran side by side enter the conversation as the answers to these calls,
/// each to its own, in order.
pub proof fn law_batch_results_enter_the_conversation(
    st: LoopV,
    calls: Seq<PreparedV>,
    results: Seq<Seq<char>>,
    i: int,
)
    requires
        st.phase == (PhaseV::Batch { calls, count: results.len() as int }),
        agent_loop::loop_ok(st),
        0 <= i < results.len(),
    ensures
        ({
            let m = agent_loop::stepped(st, LoopEventV::Results(results));
            let n = st.conversation.len() as int;
            &&& m.state.conversation.len() == n + results.len()
            &&& m.state.conversation.take(n) == st.conversation
            &&& answers(m.state.conversation[n + i], calls[i].id, calls::capped_result(results[i]))
            &&& m.actions.len() >= results.len()
            &&& m.actions[i] == (ActionV::ShowResult { id: calls[i].id, result: results[i] })
            &&& goes_on(st, m.state, calls, results.len() - 1)
        }),
{
    let m = agent_loop::stepped(st, LoopEventV::Results(results));
    lemma_results(st.conversation, calls, results);
    messages::law_messages("tool"@, calls[i].id, calls::capped_result(results[i]));
    assert(m.state.conversation.take(st.conversation.len() as int) =~= st.conversation);
}

/// What is done with a call whose turn has come: one whose arguments do not read, or do not pass, is
/// answered with what is wrong and not run; submitting ends the loop with the summary; a command is
/// asked about; any other call is run. Nothing but an answer enters the conversation.
pub proof fn law_calls_are_taken(st: LoopV, calls: Seq<PreparedV>, next: int)
    requires
        st.phase == (PhaseV::Taking { calls, next }),
        agent_loop::loop_ok(st),
    ensures
        ({
            let m = agent_loop::stepped(st, LoopEventV::Go { cancelled: false });
            let p = calls[next];
            let n = st.conversation.len() as int;
            let wrong = match p.args {
                Err(e) => Some(e),
                Ok(args) => crate::tools::check_args(p.name, args),
            };
            let run = (ActionV::ShowCall { id: p.id, name: p.name, arguments: p.args_str });
            match wrong {
                Some(e) => {
                    &&& m.state.conversation.len() == n + 1
                    &&& m.state.conversation.take(n) == st.conversation
                    &&& answers(
                        m.state.conversation[n],
                        p.id,
                        crate::reply::error_reply("INVALID_TOOL_ARGUMENTS"@, e, true),
                    )
                    &&& goes_on(st, m.state, calls, next)
                    &&& m.actions.contains(run)
                },
                None => {
                    &&& m.state.conversation == st.conversation
                    &&& p.name == "submit"@ ==> m.state.phase == PhaseV::Over(Ok(())) && m.actions
                        == seq![
                        ActionV::Stream(
                            match p.args->Ok_0.get_text("summary"@) {
                                Some(s) => s,
                                None => "Task complete."@,
                            },
                        ),
                        ActionV::Stream("[DONE]"@),
                    ]
                    &&& p.name == "run_command"@ ==> m.state.phase == (PhaseV::Asking {
                        calls,
                        next,
                    }) && m.actions.contains(run) && m.actions.last() == (ActionV::Ask {
                        command: match p.args->Ok_0.get_text("command"@) {
                            Some(s) => s,
                            None => Seq::empty(),
                        },
                        id: p.id,
                    })
                    &&& p.name != "submit"@ && p.name != "run_command"@ ==> m.state.phase == (
                    PhaseV::Running { calls, next }) && m.actions.contains(run) && m.actions.last()
                        == ActionV::Execute
                },
            }
        }),
{
    let m = agent_loop::stepped(st, LoopEventV::Go { cancelled: false });
    let p = calls[next];
    let wrong = match p.args {
        Err(e) => Some(e),
        Ok(args) => crate::tools::check_args(p.name, args),
    };
    reveal_strlit("submit");
    reveal_strlit("run_command");
    assert("submit"@.len() != "run_command"@.len());
    let run = (ActionV::ShowCall { id: p.id, name: p.name, arguments: p.args_str });
    match wrong {
        Some(e) => {
            messages::law_messages(
                "tool"@,
                p.id,
                crate::reply::error_reply("INVALID_TOOL_ARGUMENTS"@, e, true),
            );
            assert(m.state.conversation.take(st.conversation.len() as int) =~= st.conversation);
            assert(m.actions[0] == run);
        },
        None => {
            if p.name != "submit"@ {
                assert(m.actions[1] == run);
            }
        },
    }
}

/// What a turn sends: the model is given the conversation as it then stands, and all tools. Before
/// that the conversation grows by the file tree every fifty turns and by the project's own file
/// every hundred, and is compacted where it is too long.
pub proof fn law_turns_send_the_conversation(
    st: LoopV,
    cancelled: bool,
    snapshot: Option<Seq<char>>,
    clif: Option<Seq<char>>,
)
    requires
        st.phase is Starting,
    ensures
        ({
            let m = agent_loop::stepped(st, LoopEventV::Begin { cancelled, snapshot, clif });
            let tree = match snapshot {
                Some(s) => if st.turn > 0 && st.turn % 50 == 0 && s.len() > 0 {
                    seq![
                        messages::text_message_v(
                            "system"@,
                            "[Workspace refreshed — current file tree]\n"@ + s,
                        ),
                    ]
                } else {
                    Seq::empty()
                },
                None => Seq::empty(),
            };
            let file = match clif {
                Some(s) => if st.turn > 0 && st.turn % 100 == 0 {
                    seq![
                        messages::text_message_v(
                            "system"@,
                            "[CLIF.md refreshed — current project context]\n"@ + s
                                + "\n\nIf you have made structural changes to the project during this session (new files, renamed modules, changed dependencies), update .clif/CLIF.md to reflect them using write_file."@,
                        ),
                    ]
                } else {
                    Seq::empty()
                },
                None => Seq::empty(),
            };
            let all = st.conversation + tree + file;
            let too_long = conversation::tokens(all) > 100000;
            &&& too_long ==> m.state.conversation == conversation::compacted(all, 40000)
            &&& !too_long ==> m.state.conversation == all
            &&& cancelled ==> m.state.phase == PhaseV::Over(Ok(())) && forall|i: int|
                0 <= i < m.actions.len() ==> !(#[trigger] m.actions[i] is Send)
            &&& !cancelled ==> ({
                let images = st.turn == 0 && messages::has_vision(m.state.conversation);
                &&& m.state.phase == (PhaseV::Sent { vision: images })
                &&& m.actions.last() == ActionV::Send(
                    messages::request_v(
                        st.model,
                        m.state.conversation,
                        st.tools,
                        images,
                        st.provider,
                    ),
                )
            })
            &&& m.state.turn == st.turn && m.state.model == st.model && m.state.tools == st.tools
                && m.state.provider == st.provider
        }),
{
    let fresh = agent_loop::refreshed(st, snapshot, clif);
    let a = agent_loop::refreshed(st, snapshot, None);
    assert(a.conversation + Seq::<JsonV>::empty() =~= a.conversation);
    assert(st.conversation + Seq::<JsonV>::empty() =~= st.conversation);
    assert(st.conversation + Seq::<JsonV>::empty() + Seq::<JsonV>::empty() =~= st.conversation);
    let m = agent_loop::stepped(st, LoopEventV::Begin { cancelled, snapshot, clif });
    assert(forall|x: JsonV| st.conversation + seq![x] =~= #[trigger] st.conversation.push(x));
    assert(forall|x: JsonV| a.conversation + seq![x] =~= #[trigger] a.conversation.push(x));
}

/// A request that is refused because the conversation is too long is sent once more with a smaller
/// one; any other refusal ends the loop with what the server said.
pub proof fn law_refused_requests(st: LoopV, vision: bool, status: u16, shown: Seq<char>, body: Seq<char>)
    requires
        st.phase == (PhaseV::Sent { vision }),
    ensures
        ({
            let m = agent_loop::stepped(st, LoopEventV::Rejected { status, shown, body });
            &&& messages::overflow(status, body) ==> m.state.phase is Retried && m.state.conversation
                == conversation::compacted(st.conversation, 20000) && m.actions.last()
                == ActionV::Send(
                messages::retry_v(st.model, m.state.conversation, st.tools, st.provider),
            )
            &&& !messages::overflow(status, body) ==> m.state.phase == PhaseV::Over(
                Err("API error "@ + shown + ": "@ + body),
            ) && m.state.conversation == st.conversation && m.actions.len() == 0
        }),
{
}

/// While a reply arrives, each chunk is read and its texts and the tools that it names are shown, in
/// order; the conversation stays.
pub proof fn law_chunks_are_shown(
    st: LoopV,
    vision: bool,
    reply: stream::StreamV,
    chunk: Seq<char>,
    i: int,
)
    requires
        st.phase == (PhaseV::Streaming { vision, reply }),
    ensures
        ({
            let m = agent_loop::stepped(
                st,
                LoopEventV::Chunk { cancelled: false, text: Ok(chunk) },
            );
            let f = stream::fed(reply, chunk);
            &&& m.state == (LoopV { phase: PhaseV::Streaming { vision, reply: f.0 }, ..st })
            &&& m.actions.len() == f.1.len()
            &&& 0 <= i < f.1.len() ==> (match f.1[i] {
                stream::EventV::Text(s) => m.actions[i] == ActionV::Stream(s),
                stream::EventV::ToolStart { name, index } => m.actions[i] == (ActionV::ToolStart {
                    name,
                    index,
                }),
            })
        }),
{
}

/// The text tells of a tool that is about to be used.
pub open spec fn speaks_of_tools(s: Seq<char>) -> bool {
    exists|w: Seq<char>| #[trigger] telling(w) && text::contains(s, w)
}

pub open spec fn telling(w: Seq<char>) -> bool {
    ||| w == "Let me read"@
    ||| w == "Let me edit"@
    ||| w == "Let me search"@
    ||| w == "Let me write"@
    ||| w == "Let me run"@
    ||| w == "Let me find"@
    ||| w == "I'll read"@
    ||| w == "I'll edit"@
    ||| w == "I'll search"@
}

/// What a complete reply leads to. Calls that the model asked for are all taken up, as they were
/// made, behind the message that makes them. A reply without them ends the loop, but for one that
/// only tells of using a tool: then the model is told to call it, and the next turn begins. A reply
/// without anything ends the loop with a hint.
pub proof fn law_replies(st: LoopV, vision: bool, r: stream::StreamV, i: int)
    requires
        st.phase == (PhaseV::Streaming { vision, reply: r }),
        st.turn < 200,
    ensures
        ({
            let m = agent_loop::stepped(st, LoopEventV::StreamEnd);
            let n = st.conversation.len() as int;
            let asked = r.calls.len() > 0 && r.finish_reason == "tool_calls"@;
            let nothing = r.calls.len() == 0 && r.content.len() == 0;
            &&& nothing ==> m.state.conversation == st.conversation
            &&& asked ==> m.state.conversation == st.conversation.push(
                calls::assistant_v(r.content, r.calls),
            )
            &&& asked ==> (at_work(m.state.phase) matches Some(w) && w.1 == 0 && w.0.len()
                == r.calls.len() && (0 <= i < r.calls.len() ==> w.0[i] == calls::prepared(
                r.calls[i].1,
            )) && (calls::batch_len(w.0, 0) > 1 ==> m.state.phase == (PhaseV::Batch {
                calls: w.0,
                count: calls::batch_len(w.0, 0) as int,
            }) && m.actions.last() == ActionV::RunBatch) && (calls::batch_len(w.0, 0) <= 1
                ==> m.state.phase == (PhaseV::Taking { calls: w.0, next: 0 })))
            &&& !asked && !nothing && speaks_of_tools(r.content) && st.turn < 199
                ==> m.state.conversation == st.conversation.push(
                messages::text_message_v("assistant"@, r.content),
            ).push(
                messages::text_message_v(
                    "system"@,
                    "You described using tools but did not actually call them. Do not narrate — call the tool functions directly."@,
                ),
            ) && m.state.phase is Starting && m.state.turn == st.turn + 1
            &&& nothing || !asked && (!speaks_of_tools(r.content) || st.turn >= 199)
                ==> m.state.phase == PhaseV::Over(Ok(())) && m.actions.last() == ActionV::Stream(
                "[DONE]"@,
            ) && m.state.conversation == st.conversation
            &&& nothing ==> m.actions.len() >= 2 && m.actions[m.actions.len() - 2]
                == ActionV::Stream(
                if vision {
                    "⚠️ The model returned an empty response. This usually means it doesn't support vision/images. Try switching to **GPT-4o**, **"@
                        + st.sighted + "**, or **Gemini 1.5 Pro** which support image input."@
                } else {
                    "⚠️ The model returned an empty response. Try rephrasing your message or switching models."@
                },
            )
        }),
{
    let m = agent_loop::stepped(st, LoopEventV::StreamEnd);
    assert(agent_loop::narrates(r.content) == speaks_of_tools(r.content)) by {
        assert(telling("Let me read"@) && telling("Let me edit"@) && telling("Let me search"@)
            && telling("Let me write"@) && telling("Let me run"@) && telling("Let me find"@)
            && telling("I'll read"@) && telling("I'll edit"@) && telling("I'll search"@));
        if speaks_of_tools(r.content) {
            let w = choose|w: Seq<char>| #[trigger] telling(w) && text::contains(r.content, w);
        }
    }
    let usage = agent_loop::usage_actions(st, r);
    assert(usage + Seq::<ActionV>::empty() =~= usage);
    let list = agent_loop::prepared_all(r.calls);
    assert(list.len() == r.calls.len());
}

/// The user is told what a turn has cost where the server tells it.
pub proof fn law_usage_is_told(st: LoopV, vision: bool, r: stream::StreamV)
    requires
        st.phase == (PhaseV::Streaming { vision, reply: r }),
    ensures
        ({
            let m = agent_loop::stepped(st, LoopEventV::StreamEnd);
            r.prompt_tokens > 0 || r.completion_tokens > 0 ==> m.actions.len() > 0 && m.actions[0]
                == (ActionV::Usage {
                prompt: r.prompt_tokens,
                completion: r.completion_tokens,
                estimated: conversation::capped(conversation::tokens(st.conversation)),
            })
        }),
{
}

/// When the user stops the agent, nothing more is sent or run, and the loop is over.
pub proof fn law_stopping_stops(st: LoopV, ev: LoopEventV)
    requires
        agent_loop::awaited(st, ev),
        match ev {
            LoopEventV::Begin { cancelled, .. } => cancelled,
            LoopEventV::Chunk { cancelled, .. } => cancelled,
            LoopEventV::Go { cancelled } => cancelled,
            LoopEventV::Answer(a) => a is None,
            LoopEventV::Result(r) => r is None,
            _ => false,
        },
    ensures
        ({
            let m = agent_loop::stepped(st, ev);
            &&& m.state.phase == PhaseV::Over(Ok(()))
            &&& forall|i: int|
                0 <= i < m.actions.len() ==> !(#[trigger] m.actions[i] is Send)
                    && !(m.actions[i] is Execute) && !(m.actions[i] is RunBatch)
            &&& !(st.phase is Starting) && !(st.phase is Streaming) ==> m.actions == seq![
                ActionV::Stream("\n*[Stopped by user]*\n"@),
                ActionV::Stream("[DONE]"@),
            ]
        }),
{
}

/// What could not be sent, or read, ends the loop with an error that says so.
pub proof fn law_failures_end_the_loop(st: LoopV, e: Seq<char>)
    ensures
        st.phase is Sent ==> agent_loop::stepped(st, LoopEventV::SendFailed(e)).state.phase
            == PhaseV::Over(Err("Request failed: "@ + e)),
        st.phase is Retried ==> agent_loop::stepped(st, LoopEventV::SendFailed(e)).state.phase
            == PhaseV::Over(Err("Retry failed: "@ + e)),
        st.phase is Retried ==> forall|status: u16, shown: Seq<char>| #[trigger]
            agent_loop::stepped(
                st,
                LoopEventV::Rejected { status, shown, body: e },
            ).state.phase == PhaseV::Over(Err("API error after compaction: "@ + e)),
        st.phase is Streaming ==> agent_loop::stepped(
            st,
            LoopEventV::Chunk { cancelled: false, text: Err(e) },
        ).state.phase == PhaseV::Over(Err("Stream read error: "@ + e)),
        st.phase is Retried ==> agent_loop::stepped(st, LoopEventV::Accepted).state.phase
            == PhaseV::Over(Ok(())),
        st.phase matches PhaseV::Sent { vision } ==> (agent_loop::stepped(
            st,
            LoopEventV::Accepted,
        ).state.phase matches PhaseV::Streaming { vision: v, reply } && v == vision && reply.content.len()
            == 0 && reply.calls.len() == 0 && reply.buffer.len() == 0),
{
}

/// What a turn does when it begins: where the conversation is too long the user is told how much
/// smaller it became, then what is going on, and then the request goes out; nothing else.
pub proof fn law_a_turn_begins(st: LoopV, snapshot: Option<Seq<char>>, clif: Option<Seq<char>>)
    requires
        st.phase is Starting,
    ensures
        ({
            let m = agent_loop::stepped(
                st,
                LoopEventV::Begin { cancelled: false, snapshot, clif },
            );
            let no = agent_loop::stepped(st, LoopEventV::Begin { cancelled: true, snapshot, clif });
            let all = agent_loop::refreshed(st, snapshot, clif).conversation;
            let too_long = conversation::tokens(all) > 100000;
            let k: int = if too_long {
                1
            } else {
                0
            };
            &&& m.actions.len() == k + 2
            &&& no.actions == m.actions.take(k)
            &&& too_long ==> m.actions[0] == (ActionV::Compacted {
                reason: "auto"@,
                before: conversation::capped(conversation::tokens(all)),
                after: conversation::capped(conversation::tokens(m.state.conversation)),
                threshold: 100000,
            })
            &&& st.turn == 0 ==> m.actions[k] == ActionV::Status("Thinking..."@)
            &&& st.turn > 0 ==> m.actions[k] == ActionV::Status("Planning next step..."@)
            &&& m.actions[k + 1] is Send
        }),
{
    let m = agent_loop::stepped(st, LoopEventV::Begin { cancelled: false, snapshot, clif });
    let no = agent_loop::stepped(st, LoopEventV::Begin { cancelled: true, snapshot, clif });
    let all = agent_loop::refreshed(st, snapshot, clif).conversation;
    let k: int = if conversation::tokens(all) > 100000 {
        1
    } else {
        0
    };
    assert(no.actions =~= m.actions.take(k));
}

/// A conversation that the server found too long is told to have been made smaller before it is sent
/// again; once that is accepted, the user is asked to go on.
pub proof fn law_an_overflow_is_told(st: LoopV, vision: bool, shown: Seq<char>, body: Seq<char>)
    requires
        messages::overflow(400, body),
    ensures
        st.phase == (PhaseV::Sent { vision }) ==> ({
            let m = agent_loop::stepped(st, LoopEventV::Rejected { status: 400, shown, body });
            &&& m.actions.len() == 2
            &&& m.actions[0] == (ActionV::Compacted {
                reason: "overflow"@,
                before: conversation::capped(conversation::tokens(st.conversation)),
                after: conversation::capped(conversation::tokens(m.state.conversation)),
                threshold: 0,
            })
            &&& m.actions[1] is Send
        }),
        st.phase is Retried ==> agent_loop::stepped(st, LoopEventV::Accepted).actions == seq![
            ActionV::Stream("\n*[Compacted. Send another message to continue.]*\n"@),
            ActionV::Stream("[DONE]"@),
        ],
{
}

/// Calls that run side by side are all shown, each once and in order, and then run at once.
pub proof fn law_batches_are_shown(st: LoopV, vision: bool, r: stream::StreamV, i: int)
    requires
        st.phase == (PhaseV::Streaming { vision, reply: r }),
        r.prompt_tokens == 0,
        r.completion_tokens == 0,
    ensures
        ({
            let m = agent_loop::stepped(st, LoopEventV::StreamEnd);
            m.state.phase matches PhaseV::Batch { calls, count } ==> {
                &&& m.actions.len() == count + 2
                &&& m.actions[0] == ActionV::Status("Reading files..."@)
                &&& 0 <= i < count ==> m.actions[i + 1] == (ActionV::ShowCall {
                    id: calls[i].id,
                    name: calls[i].name,
                    arguments: calls[i].args_str,
                })
                &&& m.actions[count + 1] == ActionV::RunBatch
            }
        }),
        ({
            let m = agent_loop::stepped(st, LoopEventV::StreamEnd);
            m.state.phase is Taking || m.state.phase is Starting ==> m.actions.len() == 0
        }),
{
    let m = agent_loop::stepped(st, LoopEventV::StreamEnd);
    let usage = agent_loop::usage_actions(st, r);
    assert(usage =~= Seq::<ActionV>::empty());
    if let PhaseV::Batch { calls, count } = m.state.phase {
        calls::law_batch_is_the_whole_front(calls);
        let shown = agent_loop::shown_calls(calls.take(count));
        assert(shown.len() == count);
        assert(m.actions =~= seq![ActionV::Status("Reading files..."@)] + shown + seq![
            ActionV::RunBatch,
        ]);
        if 0 <= i < count {
            assert(m.actions[i + 1] == shown[i]);
            assert(shown[i] == agent_loop::shown_call(calls[i]));
        }
    }
}

/// What a reply costs is told only where the server says it, and then once, before anything else.
pub proof fn law_usage_comes_first(st: LoopV, vision: bool, r: stream::StreamV)
    requires
        r.prompt_tokens > 0 || r.completion_tokens > 0,
    ensures
        ({
            let quiet = stream::StreamV { prompt_tokens: 0, completion_tokens: 0, ..r };
            let with = agent_loop::replied(st, vision, r);
            let without = agent_loop::replied(st, vision, quiet);
            &&& with.state == without.state
            &&& with.actions.len() == without.actions.len() + 1
            &&& with.actions.skip(1) == without.actions
        }),
{
    let quiet = stream::StreamV { prompt_tokens: 0, completion_tokens: 0, ..r };
    let with = agent_loop::replied(st, vision, r);
    let without = agent_loop::replied(st, vision, quiet);
    assert(agent_loop::usage_actions(st, quiet) =~= Seq::<ActionV>::empty());
    assert(with.actions.skip(1) =~= without.actions);
}

/// What the user sees of a call that is taken: what is going on, the call, and then it is asked
/// about or run; of a refused call the call and why; nothing else.
pub proof fn law_taken_calls_are_shown(st: LoopV, calls: Seq<PreparedV>, next: int)
    requires
        st.phase == (PhaseV::Taking { calls, next }),
        agent_loop::loop_ok(st),
    ensures
        ({
            let m = agent_loop::stepped(st, LoopEventV::Go { cancelled: false });
            let p = calls[next];
            let run = (ActionV::ShowCall { id: p.id, name: p.name, arguments: p.args_str });
            let wrong = match p.args {
                Err(e) => Some(e),
                Ok(args) => crate::tools::check_args(p.name, args),
            };
            &&& wrong matches Some(e) ==> m.actions.len() >= 2 && m.actions[0] == run && m.actions[1]
                == (ActionV::ShowResult {
                id: p.id,
                result: crate::reply::error_reply("INVALID_TOOL_ARGUMENTS"@, e, true),
            }) && (m.state.phase is Over || m.actions.len() == 2)
            &&& wrong is None && p.name != "submit"@ ==> m.actions.len() == 3 && m.actions[0]
                == ActionV::Status(crate::tools::status_label(p.name)) && m.actions[1] == run
        }),
{
}

/// Where the turns are used up, the user is told to send another message.
pub proof fn law_a_pause_is_told(st: LoopV, calls: Seq<PreparedV>, next: int, result: Seq<char>)
    requires
        st.phase == (PhaseV::Running { calls, next }),
        agent_loop::loop_ok(st),
        next + 1 == calls.len(),
    ensures
        ({
            let m = agent_loop::stepped(st, LoopEventV::Result(Some(result)));
            let n = m.actions.len() as int;
            &&& st.turn == 199 ==> n >= 3 && m.actions[n - 2] == ActionV::Stream(
                "\n\n*Paused — send a message to continue.*"@,
            ) && m.actions[n - 1] == ActionV::Stream("[DONE]"@) && m.actions[n - 3] == (
            ActionV::ShowResult { id: calls[next].id, result })
            &&& st.turn < 199 ==> n >= 1 && m.actions[n - 1] == (ActionV::ShowResult {
                id: calls[next].id,
                result,
            })
        }),
{
}

} // verus!
