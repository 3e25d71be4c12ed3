//! What the agent remembers: which session belongs to which conversation, which files a
//! conversation has read, and its todo list.
use vstd::prelude::*;

use crate::keyed;
use crate::keyed::KeyedMap;
use crate::text;

verus! {

// ---- conversations -------------------------------------------------------------------------

/// The tab that an optional tab id names.
pub open spec fn tab_of(id: Option<Seq<char>>) -> Seq<char> {
    match id {
        Some(s) => if text::is_blank(s) {
            "default"@
        } else {
            text::trim(s)
        },
        None => "default"@,
    }
}

/// The key of a tab of a window.
pub open spec fn conversation_key(label: Seq<char>, id: Option<Seq<char>>) -> Seq<char> {
    label + "::"@ + tab_of(id)
}

pub open spec fn opt_text(s: Option<&str>) -> Option<Seq<char>> {
    match s {
        Some(t) => Some(t@),
        None => None,
    }
}

/// The key of a conversation: the window's label and the tab, which is `default` when the
/// id is missing or blank.
pub fn scoped_conversation_id(window_label: &str, conversation_id: Option<&str>) -> (r: String)
    ensures
        r@ == conversation_key(window_label@, opt_text(conversation_id)),
{
    let tab = match conversation_id {
        Some(s) => if text::str_is_blank(s) {
            text::copy("default")
        } else {
            text::str_trim(s)
        },
        None => text::copy("default"),
    };
    let mut r = text::copy(window_label);
    r.append("::");
    r.append(tab.as_str());
    r
}

/// Two windows never share a conversation under the same tab.
pub proof fn law_windows_are_apart(a: Seq<char>, b: Seq<char>, id: Option<Seq<char>>)
    ensures
        conversation_key(a, id) == conversation_key(b, id) ==> a == b,
{
    let tail = "::"@ + tab_of(id);
    assert(conversation_key(a, id) =~= a + tail);
    assert(conversation_key(b, id) =~= b + tail);
    if conversation_key(a, id) == conversation_key(b, id) {
        assert((a + tail).len() == (b + tail).len());
        assert((a + tail).take(a.len() as int) =~= a);
        assert((b + tail).take(b.len() as int) =~= b);
    }
}

/// Where labels hold no colon, a key tells both the window and the tab.
pub proof fn law_keys_are_apart(
    a: Seq<char>,
    b: Seq<char>,
    x: Option<Seq<char>>,
    y: Option<Seq<char>>,
)
    requires
        !a.contains(':'),
        !b.contains(':'),
        conversation_key(a, x) == conversation_key(b, y),
    ensures
        a == b,
        tab_of(x) == tab_of(y),
{
    reveal_strlit("::");
    let k = conversation_key(a, x);
    assert(k[a.len() as int] == ':');
    assert(k[b.len() as int] == ':');
    if a.len() < b.len() {
        assert(b[a.len() as int] == k[a.len() as int]);
    } else if b.len() < a.len() {
        assert(a[b.len() as int] == k[b.len() as int]);
    }
    assert(k.take(a.len() as int) =~= a);
    assert(k.take(b.len() as int) =~= b);
    assert(k.skip(a.len() as int + 2) =~= tab_of(x));
    assert(k.skip(b.len() as int + 2) =~= tab_of(y));
}

/// A missing id, a blank one and `default` name the same tab.
pub proof fn law_default_tab(blank: Seq<char>)
    requires
        text::is_blank(blank),
    ensures
        tab_of(None) == "default"@,
        tab_of(Some(blank)) == "default"@,
        tab_of(Some("default"@)) == "default"@,
{
    reveal_strlit("default");
}

// ---- paths and todos ----------------------------------------------------------------------

/// A path, by its components.
#[derive(Debug, PartialEq)]
pub struct PathParts {
    pub parts: Vec<Vec<u8>>,
}

impl View for PathParts {
    type V = Seq<Seq<u8>>;

    open spec fn view(&self) -> Seq<Seq<u8>> {
        self.parts@.map_values(|p: Vec<u8>| p@)
    }
}

pub fn bytes_eq(a: &Vec<u8>, b: &Vec<u8>) -> (r: bool)
    ensures
        r == (a@ == b@),
{
    if a.len() != b.len() {
        return false;
    }
    let mut i: usize = 0;
    while i < a.len()
        invariant
            a@.len() == b@.len(),
            i <= a@.len(),
            forall|j: int| 0 <= j < i ==> a@[j] == b@[j],
        decreases a.len() - i,
    {
        if a[i] != b[i] {
            return false;
        }
        i = i + 1;
    }
    proof {
        assert(a@ =~= b@);
    }
    true
}

impl PathParts {
    /// The components of `root` are the first ones of this path.
    pub fn starts_with(&self, root: &PathParts) -> (r: bool)
        ensures
            r == root@.is_prefix_of(self@),
    {
        if root.parts.len() > self.parts.len() {
            return false;
        }
        let mut i: usize = 0;
        while i < root.parts.len()
            invariant
                root.parts@.len() <= self.parts@.len(),
                i <= root.parts@.len(),
                forall|j: int| 0 <= j < i ==> root@[j] == self@[j],
            decreases root.parts.len() - i,
        {
            if !bytes_eq(&self.parts[i], &root.parts[i]) {
                proof {
                    assert(root@[i as int] != self@[i as int]);
                    if root@.is_prefix_of(self@) {
                        assert(self@.take(root@.len() as int)[i as int] == root@[i as int]);
                    }
                }
                return false;
            }
            i = i + 1;
        }
        proof {
            assert(self@.take(root@.len() as int) =~= root@);
        }
        true
    }

    pub fn same(&self, other: &PathParts) -> (r: bool)
        ensures
            r == (self@ == other@),
    {
        let r = self.parts.len() == other.parts.len() && self.starts_with(other);
        proof {
            if r {
                assert(self@.take(other@.len() as int) =~= self@);
                assert(self@ =~= other@);
            } else if self@ == other@ {
                assert(self@.take(self@.len() as int) =~= self@);
                assert(self@.len() == self.parts@.len());
                assert(other@.len() == other.parts@.len());
            }
        }
        r
    }

    pub fn copy(&self) -> (r: PathParts)
        ensures
            r@ == self@,
    {
        let mut parts: Vec<Vec<u8>> = Vec::new();
        let mut i: usize = 0;
        while i < self.parts.len()
            invariant
                i == parts@.len(),
                i <= self.parts@.len(),
                forall|j: int| 0 <= j < i ==> (#[trigger] parts@[j])@ == self.parts@[j]@,
            decreases self.parts.len() - i,
        {
            let mut p: Vec<u8> = Vec::new();
            p.extend_from_slice(self.parts[i].as_slice());
            proof {
                assert(p@ =~= self.parts@[i as int]@);
            }
            parts.push(p);
            i = i + 1;
        }
        let r = PathParts { parts };
        proof {
            assert(r@ =~= self@);
        }
        r
    }
}

/// A set of paths.
pub struct PathSet {
    paths: Vec<PathParts>,
}

spec fn path_views(v: Seq<PathParts>) -> Seq<Seq<Seq<u8>>> {
    v.map_values(|p: PathParts| p@)
}

impl View for PathSet {
    type V = Set<Seq<Seq<u8>>>;

    closed spec fn view(&self) -> Set<Seq<Seq<u8>>> {
        path_views(self.paths@).to_set()
    }
}

impl PathSet {
    /// No path occurs twice.
    #[verifier::type_invariant]
    spec fn inv(self) -> bool {
        path_views(self.paths@).no_duplicates()
    }

    pub fn new() -> (r: Self)
        ensures
            r@ == Set::<Seq<Seq<u8>>>::empty(),
    {
        let paths: Vec<PathParts> = Vec::new();
        proof {
            assert(path_views(paths@).to_set() =~= Set::<Seq<Seq<u8>>>::empty());
        }
        PathSet { paths }
    }

    pub fn len(&self) -> (n: usize)
        ensures
            n == self@.len(),
            self@.finite(),
    {
        proof {
            use_type_invariant(self);
            path_views(self.paths@).unique_seq_to_set();
            vstd::seq_lib::seq_to_set_is_finite(path_views(self.paths@));
        }
        self.paths.len()
    }

    pub fn contains(&self, path: &PathParts) -> (r: bool)
        ensures
            r == self@.contains(path@),
    {
        let ghost all = path_views(self.paths@);
        let mut i: usize = 0;
        while i < self.paths.len()
            invariant
                all == path_views(self.paths@),
                i <= self.paths@.len(),
                forall|j: int| 0 <= j < i ==> #[trigger] all[j] != path@,
            decreases self.paths.len() - i,
        {
            proof {
                assert(all[i as int] == self.paths@[i as int]@);
            }
            if self.paths[i].same(path) {
                proof {
                    assert(all.contains(path@));
                }
                return true;
            }
            i = i + 1;
        }
        proof {
            assert(!all.contains(path@));
        }
        false
    }

    pub fn insert(&mut self, path: &PathParts)
        ensures
            final(self)@ == old(self)@.insert(path@),
    {
        let there = self.contains(path);
        proof {
            use_type_invariant(&*self);
        }
        if there {
            proof {
                assert(self@.insert(path@) =~= self@);
            }
            return;
        }
        let mut paths: Vec<PathParts> = Vec::new();
        std::mem::swap(&mut paths, &mut self.paths);
        let ghost had = path_views(paths@);
        paths.push(path.copy());
        proof {
            let now = path_views(paths@);
            assert(now =~= had.push(path@));
            assert(!had.to_set().contains(path@));
            assert forall|i: int, j: int| 0 <= i < now.len() && 0 <= j < now.len() && i != j implies now[i]
                != now[j] by {
                if i == had.len() {
                    assert(had.contains(had[j]));
                } else if j == had.len() {
                    assert(had.contains(had[i]));
                }
            }
            assert forall|p: Seq<Seq<u8>>|
                now.to_set().contains(p) == #[trigger] had.to_set().insert(path@).contains(p) by {
                if had.contains(p) {
                    let i = choose|i: int| 0 <= i < had.len() && had[i] == p;
                    assert(now[i] == p);
                }
                if p == path@ {
                    assert(now[had.len() as int] == p);
                }
                if now.contains(p) {
                    let i = choose|i: int| 0 <= i < now.len() && now[i] == p;
                    if i < had.len() {
                        assert(had[i] == p);
                    }
                }
            }
            assert(now.to_set() =~= had.to_set().insert(path@));
        }
        self.paths = paths;
    }
}

#[derive(Debug, PartialEq)]
pub struct TodoItem {
    pub id: String,
    pub content: String,
    pub status: String,
}

pub struct TodoV {
    pub id: Seq<char>,
    pub content: Seq<char>,
    pub status: Seq<char>,
}

impl View for TodoItem {
    type V = TodoV;

    open spec fn view(&self) -> TodoV {
        TodoV { id: self.id@, content: self.content@, status: self.status@ }
    }
}

impl TodoItem {
    pub fn copy(&self) -> (r: TodoItem)
        ensures
            r@ == self@,
    {
        TodoItem {
            id: text::copy(self.id.as_str()),
            content: text::copy(self.content.as_str()),
            status: text::copy(self.status.as_str()),
        }
    }
}

pub open spec fn todo_views(v: Seq<TodoItem>) -> Seq<TodoV> {
    v.map_values(|t: TodoItem| t@)
}

pub open spec fn valid_status(s: Seq<char>) -> bool {
    s == "pending"@ || s == "in_progress"@ || s == "completed"@ || s == "cancelled"@
}

pub fn is_valid_todo_status(status: &str) -> (r: bool)
    ensures
        r == valid_status(status@),
{
    text::str_eq(status, "pending") || text::str_eq(status, "in_progress") || text::str_eq(
        status,
        "completed",
    ) || text::str_eq(status, "cancelled")
}

// ---- the state ----------------------------------------------------------------------------

/// Everything that outlives a single turn.
pub struct AgentState {
    /// The sessions that are running.
    pub sessions: KeyedMap<bool>,
    /// The conversation of each session.
    pub convs: KeyedMap<String>,
    /// The files that each conversation has read.
    pub reads: KeyedMap<PathSet>,
    /// The todo list of each conversation.
    pub todos: KeyedMap<Vec<TodoItem>>,
}

/// The conversation of a session: the one that it was opened for, else its own id.
pub open spec fn conv_of(st: AgentState, session: Seq<char>) -> Seq<char> {
    if st.convs@.contains_key(session) {
        st.convs@[session]@
    } else {
        session
    }
}

/// The files that a conversation has read.
pub open spec fn reads_of(st: AgentState, conv: Seq<char>) -> Set<Seq<Seq<u8>>> {
    if st.reads@.contains_key(conv) {
        st.reads@[conv]@
    } else {
        Set::empty()
    }
}

/// The todo list of a conversation.
pub open spec fn todos_of(st: AgentState, conv: Seq<char>) -> Seq<TodoV> {
    if st.todos@.contains_key(conv) {
        todo_views(st.todos@[conv]@)
    } else {
        seq![]
    }
}

/// `after` is `before` with something under `k`, which is as it was where there was something
/// already.
pub open spec fn slot_ensured<V>(
    before: Map<Seq<char>, V>,
    after: Map<Seq<char>, V>,
    k: Seq<char>,
) -> bool {
    if before.contains_key(k) {
        after == before
    } else {
        after.contains_key(k) && after == before.insert(k, after[k])
    }
}

/// Room is made for a conversation, and it has a slot.
pub open spec fn slot_opened<V>(
    before: Map<Seq<char>, V>,
    after: Map<Seq<char>, V>,
    k: Seq<char>,
) -> bool {
    exists|mid: Map<Seq<char>, V>| #[trigger]
        keyed::room_made(before, mid, k) && slot_ensured(mid, after, k)
}

fn open_slot<V>(map: &mut KeyedMap<V>, k: &str, fresh: V)
    ensures
        slot_opened(old(map)@, final(map)@, k@),
        !old(map)@.contains_key(k@) ==> final(map)@[k@] == fresh,
{
    keyed::evict_one_if_full(map, k);
    let ghost mid = map@;
    if map.get(k).is_none() {
        map.insert(k, fresh);
    }
    proof {
        lemma_slot_kept(old(map)@, mid, k@);
        assert(slot_ensured(mid, map@, k@));
    }
}

/// The conversation can read files: it has read none where it is new.
pub open spec fn reads_opened(before: AgentState, conv: Seq<char>, after: AgentState) -> bool {
    &&& slot_opened(before.reads@, after.reads@, conv)
    &&& !before.reads@.contains_key(conv) ==> after.reads@[conv]@ == Set::<Seq<Seq<u8>>>::empty()
}

/// The conversation has a todo list, an empty one where it is new.
pub open spec fn todos_opened(before: AgentState, conv: Seq<char>, after: AgentState) -> bool {
    &&& slot_opened(before.todos@, after.todos@, conv)
    &&& !before.todos@.contains_key(conv) ==> after.todos@[conv]@.len() == 0
}

/// The conversation has read one more file.
pub open spec fn read_noted(
    before: AgentState,
    conv: Seq<char>,
    path: Seq<Seq<u8>>,
    after: AgentState,
) -> bool {
    &&& after.reads@.dom() == before.reads@.dom().insert(conv)
    &&& reads_of(after, conv) == reads_of(before, conv).insert(path)
    &&& forall|c: Seq<char>|
        c != conv && #[trigger] before.reads@.contains_key(c) ==> after.reads@[c]
            == before.reads@[c]
}

impl AgentState {
    pub fn new() -> (r: Self)
        ensures
            r.sessions@ == Map::<Seq<char>, bool>::empty(),
            r.convs@ == Map::<Seq<char>, String>::empty(),
            r.reads@ == Map::<Seq<char>, PathSet>::empty(),
            r.todos@ == Map::<Seq<char>, Vec<TodoItem>>::empty(),
    {
        AgentState {
            sessions: KeyedMap::new(),
            convs: KeyedMap::new(),
            reads: KeyedMap::new(),
            todos: KeyedMap::new(),
        }
    }

    /// A turn of conversation `conv` begins as session `session`. What the conversation has
    /// read, and its todo list, are kept.
    pub fn open_session(&mut self, session: &str, conv: &str)
        ensures
            final(self).sessions@ == old(self).sessions@.insert(session@, true),
            final(self).convs@.dom() == old(self).convs@.dom().insert(session@),
            final(self).convs@[session@]@ == conv@,
            forall|s: Seq<char>|
                s != session@ && #[trigger] old(self).convs@.contains_key(s) ==> final(self).convs@[s]
                    == old(self).convs@[s],
            reads_opened(*old(self), conv@, *final(self)),
            todos_opened(*old(self), conv@, *final(self)),
    {
        self.sessions.insert(session, true);
        self.convs.insert(session, text::copy(conv));
        open_slot(&mut self.reads, conv, PathSet::new());
        open_slot(&mut self.todos, conv, Vec::new());
    }

    /// The session is over; the conversation stays.
    pub fn close_session(&mut self, session: &str)
        ensures
            final(self).sessions@ == old(self).sessions@.remove(session@),
            final(self).convs@ == old(self).convs@.remove(session@),
            final(self).reads == old(self).reads,
            final(self).todos == old(self).todos,
    {
        let _ = self.sessions.remove(session);
        let _ = self.convs.remove(session);
    }

    /// Stops a session that is running, which has to be told; the conversation stays.
    pub fn agent_stop(&mut self, session_id: &str) -> (r: Result<(), String>)
        ensures
            final(self).reads == old(self).reads,
            final(self).todos == old(self).todos,
            final(self).sessions@ == old(self).sessions@.remove(session_id@),
            match r {
                Ok(_) => old(self).sessions@.contains_key(session_id@) && final(self).convs@
                    == old(self).convs@.remove(session_id@),
                Err(e) => !old(self).sessions@.contains_key(session_id@) && final(self).convs
                    == old(self).convs && e@ == "Session not found: "@ + session_id@,
            },
    {
        match self.sessions.remove(session_id) {
            Some(_) => {
                let _ = self.convs.remove(session_id);
                Ok(())
            },
            None => Err(text::cat("Session not found: ", session_id)),
        }
    }

    pub fn conv_for_session(&self, session_id: &str) -> (r: String)
        ensures
            r@ == conv_of(*self, session_id@),
    {
        match self.convs.get(session_id) {
            Some(c) => text::copy(c.as_str()),
            None => text::copy(session_id),
        }
    }

    /// Forgets the todo list of the session's conversation, or all of them.
    pub fn agent_clear_todos(&mut self, session_id: Option<&str>)
        ensures
            final(self).sessions == old(self).sessions,
            final(self).convs == old(self).convs,
            final(self).reads == old(self).reads,
            final(self).todos@ == (match session_id {
                Some(s) => old(self).todos@.remove(conv_of(*old(self), s@)),
                None => Map::empty(),
            }),
    {
        match session_id {
            Some(s) => {
                let conv = self.conv_for_session(s);
                let _ = self.todos.remove(conv.as_str());
            },
            None => {
                self.todos.clear();
            },
        }
    }

    /// Forgets what a tab of a window has read, and its todo list.
    pub fn agent_clear_conversation(&mut self, window_label: &str, conversation_id: &str)
        ensures
            ({
                let k = conversation_key(window_label@, Some(conversation_id@));
                &&& final(self).reads@ == old(self).reads@.remove(k)
                &&& final(self).todos@ == old(self).todos@.remove(k)
            }),
            final(self).sessions == old(self).sessions,
            final(self).convs == old(self).convs,
    {
        let k = scoped_conversation_id(window_label, Some(conversation_id));
        let _ = self.reads.remove(k.as_str());
        let _ = self.todos.remove(k.as_str());
    }

    /// Notes that the session's conversation has read a file.
    pub fn track_file_read(&mut self, session_id: Option<&str>, path: &PathParts)
        ensures
            final(self).sessions == old(self).sessions,
            final(self).convs == old(self).convs,
            final(self).todos == old(self).todos,
            session_id is None ==> final(self).reads == old(self).reads,
            session_id matches Some(s) ==> read_noted(
                *old(self),
                conv_of(*old(self), s@),
                path@,
                *final(self),
            ),
    {
        if let Some(s) = session_id {
            let conv = self.conv_for_session(s);
            let ghost before = *self;
            let mut set = match self.reads.remove(conv.as_str()) {
                Some(v) => v,
                None => PathSet::new(),
            };
            proof {
                assert(reads_of(before, conv@) == set@);
            }
            set.insert(path);
            self.reads.insert(conv.as_str(), set);
            proof {
                assert(self.reads@.dom() =~= before.reads@.dom().insert(conv@));
            }
        }
    }

    /// The session's conversation has read the file; without a session nothing is tracked,
    /// and every file counts as read.
    pub fn has_read_file(&self, session_id: Option<&str>, path: &PathParts) -> (r: bool)
        ensures
            r == (match session_id {
                Some(s) => reads_of(*self, conv_of(*self, s@)).contains(path@),
                None => true,
            }),
    {
        match session_id {
            Some(s) => {
                let conv = self.conv_for_session(s);
                match self.reads.get(conv.as_str()) {
                    Some(set) => set.contains(path),
                    None => false,
                }
            },
            None => true,
        }
    }
}

/// Ends everything: the sessions that were running, which have to be told, are returned, each
/// once, and all that was remembered is gone.
pub fn kill_all_agent_sessions(state: &mut AgentState) -> (r: Vec<String>)
    ensures
        r@.map_values(|s: String| s@).to_set() == old(state).sessions@.dom(),
        r@.map_values(|s: String| s@).no_duplicates(),
        final(state).sessions@ == Map::<Seq<char>, bool>::empty(),
        final(state).convs@ == Map::<Seq<char>, String>::empty(),
        final(state).reads@ == Map::<Seq<char>, PathSet>::empty(),
        final(state).todos@ == Map::<Seq<char>, Vec<TodoItem>>::empty(),
{
    let ids = state.sessions.keys();
    state.sessions.clear();
    state.convs.clear();
    state.reads.clear();
    state.todos.clear();
    ids
}

// ---- laws ---------------------------------------------------------------------------------

/// What a conversation has read, and its todo list, live on into its next turn.
pub proof fn law_memory_survives_turns(before: AgentState, after: AgentState, conv: Seq<char>)
    requires
        reads_opened(before, conv, after),
        todos_opened(before, conv, after),
    ensures
        reads_of(after, conv) == reads_of(before, conv),
        todos_of(after, conv) == todos_of(before, conv),
{
    let mid = choose|mid: Map<Seq<char>, PathSet>| #[trigger]
        keyed::room_made(before.reads@, mid, conv) && slot_ensured(mid, after.reads@, conv);
    lemma_slot_kept(before.reads@, mid, conv);
    let tmid = choose|mid: Map<Seq<char>, Vec<TodoItem>>| #[trigger]
        keyed::room_made(before.todos@, mid, conv) && slot_ensured(mid, after.todos@, conv);
    lemma_slot_kept(before.todos@, tmid, conv);
    if !before.todos@.contains_key(conv) {
        assert(todo_views(after.todos@[conv]@) =~= Seq::<TodoV>::empty());
    }
}

proof fn lemma_slot_kept<V>(
    before: Map<Seq<char>, V>,
    mid: Map<Seq<char>, V>,
    conv: Seq<char>,
)
    requires
        keyed::room_made(before, mid, conv),
    ensures
        mid.contains_key(conv) == before.contains_key(conv),
        mid.contains_key(conv) ==> mid[conv] == before[conv],
{
}

/// A call on the state, as far as it bears on the files that were read.
pub enum MemoryCall {
    /// A turn of this conversation begins.
    Open { conv: Seq<char> },
    /// A session has read a file.
    Track { session: Option<Seq<char>>, path: Seq<Seq<u8>> },
    /// The conversation with this key is cleared.
    Clear { key: Seq<char> },
    /// Everything is ended.
    ClearAll,
    /// Any other call.
    Other,
}

/// What a call does to the files that were read.
pub open spec fn called(before: AgentState, c: MemoryCall, after: AgentState) -> bool {
    match c {
        MemoryCall::Open { conv } => reads_opened(before, conv, after),
        MemoryCall::Track { session, path } => match session {
            Some(s) => read_noted(before, conv_of(before, s), path, after),
            None => after.reads@ == before.reads@,
        },
        MemoryCall::Clear { key } => after.reads@ == before.reads@.remove(key),
        MemoryCall::ClearAll => after.reads@ == Map::<Seq<char>, PathSet>::empty(),
        MemoryCall::Other => after.reads@ == before.reads@,
    }
}

/// A history of calls, with the states between them, from a state in which nothing was read.
pub open spec fn history(states: Seq<AgentState>, calls: Seq<MemoryCall>) -> bool {
    &&& states.len() == calls.len() + 1
    &&& states[0].reads@ == Map::<Seq<char>, PathSet>::empty()
    &&& forall|i: int|
        0 <= i < calls.len() ==> called(states[i], #[trigger] calls[i], states[i + 1])
}

/// The call clears the conversation, or evicts it to make room for another one.
pub open spec fn forgets(
    before: AgentState,
    c: MemoryCall,
    after: AgentState,
    conv: Seq<char>,
) -> bool {
    match c {
        MemoryCall::Open { .. } => before.reads@.contains_key(conv) && !after.reads@.contains_key(
            conv,
        ),
        MemoryCall::Clear { key } => key == conv,
        MemoryCall::ClearAll => true,
        _ => false,
    }
}

/// Call `i` notes that some session of the conversation has read the file, and no later call
/// clears or evicts the conversation.
pub open spec fn noted_at(
    states: Seq<AgentState>,
    calls: Seq<MemoryCall>,
    i: int,
    conv: Seq<char>,
    path: Seq<Seq<u8>>,
) -> bool {
    &&& 0 <= i < calls.len()
    &&& (calls[i] matches MemoryCall::Track { session: Some(t), path: p } && p == path && conv_of(
        states[i],
        t,
    ) == conv)
    &&& forall|j: int|
        i < j < calls.len() ==> !forgets(states[j], #[trigger] calls[j], states[j + 1], conv)
}

proof fn lemma_called(
    before: AgentState,
    c: MemoryCall,
    after: AgentState,
    conv: Seq<char>,
    path: Seq<Seq<u8>>,
)
    requires
        called(before, c, after),
    ensures
        reads_of(after, conv).contains(path) == (!forgets(before, c, after, conv) && (reads_of(
            before,
            conv,
        ).contains(path) || (c matches MemoryCall::Track { session: Some(t), path: p } && p == path
            && conv_of(before, t) == conv))),
{
    match c {
        MemoryCall::Open { conv: opened } => {
            let mid = choose|mid: Map<Seq<char>, PathSet>| #[trigger]
                keyed::room_made(before.reads@, mid, opened) && slot_ensured(
                    mid,
                    after.reads@,
                    opened,
                );
            lemma_slot_kept(before.reads@, mid, opened);
        },
        MemoryCall::Track { session, path: p } => {
            if let Some(t) = session {
                if conv_of(before, t) != conv {
                    assert(after.reads@.dom().contains(conv) == before.reads@.dom().contains(conv));
                    assert(after.reads@.contains_key(conv) == before.reads@.contains_key(conv));
                }
            }
        },
        _ => {},
    }
}

proof fn lemma_history(
    states: Seq<AgentState>,
    calls: Seq<MemoryCall>,
    conv: Seq<char>,
    path: Seq<Seq<u8>>,
)
    requires
        history(states, calls),
    ensures
        reads_of(states.last(), conv).contains(path) == (exists|i: int|
            noted_at(states, calls, i, conv, path)),
    decreases calls.len(),
{
    if calls.len() > 0 {
        let s = states.drop_last();
        let c = calls.drop_last();
        let n = c.len() as int;
        assert(history(s, c)) by {
            assert forall|i: int| 0 <= i < c.len() implies called(
                s[i],
                #[trigger] c[i],
                s[i + 1],
            ) by {
                assert(calls[i] == c[i]);
            }
        }
        lemma_history(s, c, conv, path);
        assert(called(states[n], calls[n], states[n + 1]));
        assert(s.last() == states[n]);
        lemma_called(states[n], calls[n], states[n + 1], conv, path);
        let lost = forgets(states[n], calls[n], states[n + 1], conv);
        assert forall|i: int| 0 <= i < n implies #[trigger] noted_at(states, calls, i, conv, path)
            == (noted_at(s, c, i, conv, path) && !lost) by {
            assert(calls[i] == c[i]);
            if noted_at(states, calls, i, conv, path) {
                assert(calls[n] == calls[n]);
                assert forall|j: int| i < j < c.len() implies !forgets(
                    s[j],
                    #[trigger] c[j],
                    s[j + 1],
                    conv,
                ) by {
                    assert(calls[j] == c[j]);
                }
            }
            if noted_at(s, c, i, conv, path) && !lost {
                assert forall|j: int| i < j < calls.len() implies !forgets(
                    states[j],
                    #[trigger] calls[j],
                    states[j + 1],
                    conv,
                ) by {
                    if j < n {
                        assert(calls[j] == c[j]);
                    }
                }
            }
        }
        if reads_of(states.last(), conv).contains(path) {
            if exists|i: int| noted_at(s, c, i, conv, path) {
                let i = choose|i: int| noted_at(s, c, i, conv, path);
                assert(noted_at(states, calls, i, conv, path));
            } else {
                assert(noted_at(states, calls, n, conv, path));
            }
        } else if exists|i: int| noted_at(states, calls, i, conv, path) {
            let i = choose|i: int| noted_at(states, calls, i, conv, path);
            if i < n {
                assert(noted_at(s, c, i, conv, path));
            }
        }
    }
}

/// After any history of calls, a session counts as having read exactly the files that some
/// session of the same conversation has read since that conversation was last cleared or evicted.
pub proof fn law_reads_are_what_was_tracked(
    states: Seq<AgentState>,
    calls: Seq<MemoryCall>,
    session: Seq<char>,
    path: Seq<Seq<u8>>,
)
    requires
        history(states, calls),
    ensures
        ({
            let conv = conv_of(states.last(), session);
            reads_of(states.last(), conv).contains(path) <==> exists|i: int|
                noted_at(states, calls, i, conv, path)
        }),
{
    lemma_history(states, calls, conv_of(states.last(), session), path);
}

/// A tab is named by its id without the blanks around it, and a key by the window's label, two
/// colons and the tab.
pub proof fn law_tabs(label: Seq<char>, id: Seq<char>, st: AgentState, session: Seq<char>)
    ensures
        text::trim(id).len() > 0 ==> tab_of(Some(id)) == text::trim(id),
        text::trim(id).len() == 0 ==> tab_of(Some(id)) == "default"@,
        text::trim(id).len() > 0 ==> conversation_key(label, Some(id)) == label + seq![':', ':']
            + text::trim(id),
        conversation_key(label, None) == label + seq![':', ':'] + "default"@,
        st.convs@.contains_key(session) ==> conv_of(st, session) == st.convs@[session]@,
        !st.convs@.contains_key(session) ==> conv_of(st, session) == session,
{
    text::law_trim(id);
    reveal_strlit("::");
    assert("::"@ =~= seq![':', ':']);
}

} // verus!
