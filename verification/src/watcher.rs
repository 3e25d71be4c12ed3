//! Which changes on the disk the editor is told of.
use vstd::prelude::*;

use crate::text;

verus! {

/// A change that the editor is told of.
#[derive(Debug, PartialEq)]
pub struct FileChangeEvent {
    pub path: String,
    /// "create", "modify" or "remove".
    pub kind: String,
}

pub struct FileChangeV {
    pub path: Seq<char>,
    pub kind: Seq<char>,
}

impl View for FileChangeEvent {
    type V = FileChangeV;

    open spec fn view(&self) -> FileChangeV {
        FileChangeV { path: self.path@, kind: self.kind@ }
    }
}

/// What happened on the disk.
#[derive(Debug, Clone, Copy, PartialEq, Eq, Structural)]
pub enum DiskEvent {
    Create,
    Modify,
    Remove,
    Other,
}

/// A path that it happened to.
pub struct ChangedPath {
    pub path: String,
    pub is_file: bool,
}

/// What the paths hold that nobody edits: packages, version control, build results, and the
/// folder of another assistant.
pub open spec fn ignored_parts(assistant: Seq<char>) -> Seq<Seq<char>> {
    seq![
        "/node_modules/"@,
        "/.git/"@,
        "/target/"@,
        "/.DS_Store"@,
        "/."@ + assistant + "/"@,
        "/dist/"@,
        "/.next/"@,
    ]
}

/// The path lies where nothing that the user edits is kept.
pub open spec fn is_ignored(path: Seq<char>, assistant: Seq<char>) -> bool {
    exists|i: int|
        0 <= i < ignored_parts(assistant).len() && text::contains(
            path,
            #[trigger] ignored_parts(assistant)[i],
        )
}

/// The path is one that the editor is not told of. `assistant` is the name, in lower case, of
/// another assistant that keeps a folder in the project.
pub fn should_ignore(path: &str, assistant: &str) -> (r: bool)
    ensures
        r == is_ignored(path@, assistant@),
{
    let mut folder = text::cat("/.", assistant);
    folder.append("/");
    proof {
        let p = ignored_parts(assistant@);
        assert(p[0] == "/node_modules/"@ && p[1] == "/.git/"@ && p[2] == "/target/"@ && p[3]
            == "/.DS_Store"@ && p[4] == folder@ && p[5] == "/dist/"@ && p[6] == "/.next/"@);
    }
    text::str_contains(path, "/node_modules/") || text::str_contains(path, "/.git/")
        || text::str_contains(path, "/target/") || text::str_contains(path, "/.DS_Store")
        || text::str_contains(path, folder.as_str()) || text::str_contains(path, "/dist/")
        || text::str_contains(path, "/.next/")
}

pub open spec fn kind_v(e: DiskEvent) -> Option<Seq<char>> {
    match e {
        DiskEvent::Create => Some("create"@),
        DiskEvent::Modify => Some("modify"@),
        DiskEvent::Remove => Some("remove"@),
        DiskEvent::Other => None,
    }
}

/// The editor is told of a path: of a file, or of anything that is gone.
pub open spec fn told(e: DiskEvent, p: ChangedPath, assistant: Seq<char>) -> bool {
    !is_ignored(p.path@, assistant) && (p.is_file || e == DiskEvent::Remove)
}

pub open spec fn changes(e: DiskEvent, paths: Seq<ChangedPath>, assistant: Seq<char>) -> Seq<
    FileChangeV,
>
    decreases paths.len(),
{
    if paths.len() == 0 || kind_v(e) is None {
        seq![]
    } else if told(e, paths.last(), assistant) {
        changes(e, paths.drop_last(), assistant).push(
            FileChangeV { path: paths.last().path@, kind: kind_v(e)->Some_0 },
        )
    } else {
        changes(e, paths.drop_last(), assistant)
    }
}

pub open spec fn changes_view(v: Seq<FileChangeEvent>) -> Seq<FileChangeV> {
    v.map_values(|c: FileChangeEvent| c@)
}

/// The changes that the editor is told of.
pub fn file_changes(e: DiskEvent, paths: &Vec<ChangedPath>, assistant: &str) -> (r: Vec<
    FileChangeEvent,
>)
    ensures
        changes_view(r@) == changes(e, paths@, assistant@),
{
    let mut out: Vec<FileChangeEvent> = Vec::new();
    let kind = match e {
        DiskEvent::Create => "create",
        DiskEvent::Modify => "modify",
        DiskEvent::Remove => "remove",
        DiskEvent::Other => {
            proof {
                assert(changes_view(out@) =~= Seq::<FileChangeV>::empty());
            }
            return out;
        },
    };
    let mut i: usize = 0;
    proof {
        assert(paths@.take(0) =~= Seq::<ChangedPath>::empty());
        assert(changes_view(out@) =~= changes(e, paths@.take(0), assistant@));
    }
    while i < paths.len()
        invariant
            kind_v(e) == Some(kind@),
            i <= paths@.len(),
            changes_view(out@) == changes(e, paths@.take(i as int), assistant@),
        decreases paths.len() - i,
    {
        let p = &paths[i];
        proof {
            assert(paths@.take(i as int + 1).drop_last() =~= paths@.take(i as int));
        }
        let ghost before = out@;
        if !should_ignore(p.path.as_str(), assistant) && (p.is_file || e == DiskEvent::Remove) {
            let c = FileChangeEvent { path: text::copy(p.path.as_str()), kind: text::copy(kind) };
            let ghost seen = c@;
            out.push(c);
            proof {
                assert(changes_view(out@) =~= changes_view(before).push(seen));
            }
        }
        i = i + 1;
    }
    proof {
        assert(paths@.take(i as int) =~= paths@);
    }
    out
}

// ---- laws --------------------------------------------------------------------------------------

/// The editor is told of every path that changed and is not ignored, in order, as what happened to
/// it; of a folder only when it is gone.
pub proof fn law_changes_are_told(
    e: DiskEvent,
    a: Seq<ChangedPath>,
    b: Seq<ChangedPath>,
    p: ChangedPath,
    assistant: Seq<char>,
)
    ensures
        changes(e, a + b, assistant) == changes(e, a, assistant) + changes(e, b, assistant),
        e == DiskEvent::Other ==> changes(e, a, assistant).len() == 0,
        is_ignored(p.path@, assistant) ==> changes(e, seq![p], assistant).len() == 0,
        e == DiskEvent::Create && p.is_file && !is_ignored(p.path@, assistant) ==> changes(
            e,
            seq![p],
            assistant,
        ) == seq![FileChangeV { path: p.path@, kind: "create"@ }],
        e == DiskEvent::Modify && p.is_file && !is_ignored(p.path@, assistant) ==> changes(
            e,
            seq![p],
            assistant,
        ) == seq![FileChangeV { path: p.path@, kind: "modify"@ }],
        e == DiskEvent::Remove && !is_ignored(p.path@, assistant) ==> changes(e, seq![p], assistant)
            == seq![FileChangeV { path: p.path@, kind: "remove"@ }],
        e != DiskEvent::Remove && !p.is_file ==> changes(e, seq![p], assistant).len() == 0,
    decreases b.len(),
{
    assert(seq![p].drop_last() =~= Seq::<ChangedPath>::empty());
    assert(changes(e, Seq::<ChangedPath>::empty(), assistant) =~= Seq::<FileChangeV>::empty());
    if kind_v(e) is Some {
        let c = FileChangeV { path: p.path@, kind: kind_v(e)->Some_0 };
        assert(Seq::<FileChangeV>::empty().push(c) =~= seq![c]);
    }
    if b.len() == 0 {
        assert(a + b =~= a);
        assert(changes(e, a, assistant) + changes(e, b, assistant) =~= changes(e, a, assistant));
    } else {
        law_changes_are_told(e, a, b.drop_last(), p, assistant);
        assert((a + b).drop_last() =~= a + b.drop_last());
        assert(changes(e, a + b, assistant) =~= changes(e, a, assistant) + changes(
            e,
            b,
            assistant,
        ));
    }
}

/// What is ignored: packages, version control, build results and the folder of another assistant,
/// wherever they lie in the path; nothing else.
pub proof fn law_ignored_paths(path: Seq<char>, assistant: Seq<char>)
    ensures
        is_ignored(path, assistant) <==> text::contains(path, "/node_modules/"@) || text::contains(
            path,
            "/.git/"@,
        ) || text::contains(path, "/target/"@) || text::contains(path, "/.DS_Store"@)
            || text::contains(path, "/dist/"@) || text::contains(path, "/.next/"@)
            || text::contains(path, "/."@ + assistant + "/"@),
{
    let p = ignored_parts(assistant);
    assert(p.len() == 7);
    assert(p[0] == "/node_modules/"@ && p[1] == "/.git/"@ && p[2] == "/target/"@ && p[3]
        == "/.DS_Store"@ && p[4] == "/."@ + assistant + "/"@ && p[5] == "/dist/"@ && p[6]
        == "/.next/"@);
}

} // verus!
