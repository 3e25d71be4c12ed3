# ClifPad

The logic of ClifPad's coding agent and of its Local Models tab, as a Verus library.

- `src/` decides. Every function has a contract over the views of its data: JSON values, texts as
  sequences of characters, conversations, sessions, model listings. The loops of the agent
  (`agent_loop`), of a local model (`local_turn`), of a first look at a project (`init_project`) and
  of a token generation (`engine`) are state machines: an event goes in, the next state and the
  actions to perform come out. What holds across calls is stated in the public proof functions named
  `law_*`.
- `app/` performs. It sends requests, reads and writes files, runs commands and drives llama.cpp,
  and hands the outcome back as plain values. The editor around it implements `app::Editor`.
- `tests/` runs the library on concrete values.

JSON text is read and written by `serde_json`; the declarations at the top of `src/json.rs` say what
is relied on. Memory sizes, percentages and speeds are floating-point numbers and are computed in
`app/`.
