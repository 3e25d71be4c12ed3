//! The open project folder: which paths are inside it, which are ignored, and what its file
//! tree looks like.
use vstd::prelude::*;

use crate::json;
use crate::session::PathParts;
use crate::text;

verus! {

// ---- paths ---------------------------------------------------------------------------------

/// A path relative to the workspace, unless it is absolute.
pub open spec fn resolved(path: Seq<char>, workspace: Seq<char>) -> Seq<char> {
    if text::starts_with(path, "/"@) || text::starts_with(path, "\\"@) {
        path
    } else {
        workspace + "/"@ + path
    }
}

pub fn resolve_path(path: &str, workspace_dir: &str) -> (r: String)
    ensures
        r@ == resolved(path@, workspace_dir@),
{
    if text::str_starts_with(path, "/") || text::str_starts_with(path, "\\") {
        text::copy(path)
    } else {
        let mut s = text::copy(workspace_dir);
        s.append("/");
        s.append(path);
        s
    }
}

/// A path as the file system resolved it, and how it is shown.
pub struct ResolvedPath {
    pub parts: PathParts,
    pub shown: String,
}

/// Why the workspace folder itself could not be resolved.
pub open spec fn root_failure(workspace: Seq<char>, exists: bool, error: Seq<char>) -> Seq<char> {
    if exists {
        "Failed to resolve workspace root '"@ + workspace + "': "@ + error
    } else {
        "The open project folder '"@ + workspace
            + "' no longer exists. Open a folder in ClifPad (File → Open Folder) before using file tools."@
    }
}

/// The message for a workspace folder that could not be resolved: a missing folder is told
/// apart from any other failure.
pub fn workspace_root_error(workspace_dir: &str, exists: bool, error: &str) -> (r: String)
    ensures
        r@ == root_failure(workspace_dir@, exists, error@),
{
    if exists {
        let mut s = text::copy("Failed to resolve workspace root '");
        s.append(workspace_dir);
        s.append("': ");
        s.append(error);
        s
    } else {
        let mut s = text::copy("The open project folder '");
        s.append(workspace_dir);
        s.append(
            "' no longer exists. Open a folder in ClifPad (File → Open Folder) before using file tools.",
        );
        s
    }
}

/// A workspace can be used when it has a name and is a folder.
pub open spec fn usable(workspace: Seq<char>, is_dir: bool) -> bool {
    !text::is_blank(workspace) && is_dir
}

pub fn workspace_is_valid(workspace_dir: &str, is_dir: bool) -> (r: bool)
    ensures
        r == usable(workspace_dir@, is_dir),
{
    !text::str_is_blank(workspace_dir) && is_dir
}

/// What the file system says of a path that a tool names.
pub enum Target {
    /// The path exists, or is only to be read: what resolving it gave.
    Existing(Result<ResolvedPath, String>),
    /// Nothing is there yet: its parent folder, if it has one, as shown and as resolved, and
    /// the path below the resolved parent, if it has a file name.
    Missing {
        parent: Option<(String, Result<(), String>)>,
        below: Option<ResolvedPath>,
    },
}

/// Why a path could not be resolved.
pub open spec fn target_failure(path: Seq<char>, t: Target) -> Option<Seq<char>> {
    match t {
        Target::Existing(Ok(_)) => None,
        Target::Existing(Err(e)) => Some("Failed to resolve path '"@ + path + "': "@ + e@),
        Target::Missing { parent: None, .. } => Some(
            "Path '"@ + path + "' has no parent directory"@,
        ),
        Target::Missing { parent: Some((p, Err(e))), .. } => Some(
            "Failed to resolve parent directory '"@ + p@ + "': "@ + e@,
        ),
        Target::Missing { parent: Some((_, Ok(_))), below: None } => Some(
            "Invalid file path '"@ + path + "'"@,
        ),
        Target::Missing { parent: Some((_, Ok(_))), below: Some(_) } => None,
    }
}

/// The resolved path, where there is one.
pub open spec fn target_path(t: Target) -> Option<ResolvedPath> {
    match t {
        Target::Existing(Ok(p)) => Some(p),
        Target::Missing { parent: Some((_, Ok(_))), below: Some(p) } => Some(p),
        _ => None,
    }
}

fn around(a: &str, b: &str, c: &str, d: &str) -> (r: String)
    ensures
        r@ == a@ + b@ + c@ + d@,
{
    let mut s = text::copy(a);
    s.append(b);
    s.append(c);
    s.append(d);
    s
}

/// The resolved path of a target, or why it has none.
pub fn resolve_target(path: &str, target: Target) -> (r: Result<ResolvedPath, String>)
    ensures
        match r {
            Ok(p) => target_failure(path@, target) is None && target_path(target) == Some(p),
            Err(e) => target_failure(path@, target) == Some(e@),
        },
{
    match target {
        Target::Existing(Ok(p)) => Ok(p),
        Target::Existing(Err(e)) => Err(
            around("Failed to resolve path '", path, "': ", e.as_str()),
        ),
        Target::Missing { parent, below } => match parent {
            None => {
                let s = around("Path '", path, "' has no parent directory", "");
                proof {
                    reveal_strlit("");
                    assert(s@ =~= "Path '"@ + path@ + "' has no parent directory"@);
                }
                Err(s)
            },
            Some(pair) => match pair.1 {
                Err(e) => Err(
                    around(
                        "Failed to resolve parent directory '",
                        pair.0.as_str(),
                        "': ",
                        e.as_str(),
                    ),
                ),
                Ok(_) => match below {
                    Some(p) => Ok(p),
                    None => {
                        let s = around("Invalid file path '", path, "'", "");
                        proof {
                            reveal_strlit("");
                            assert(s@ =~= "Invalid file path '"@ + path@ + "'"@);
                        }
                        Err(s)
                    },
                },
            },
        },
    }
}

/// Why a path may not be used, given the resolved workspace folder.
pub open spec fn outside_failure(
    path: Seq<char>,
    root: Result<ResolvedPath, Seq<char>>,
    t: Target,
) -> Option<Seq<char>> {
    match root {
        Err(e) => Some(e),
        Ok(r) => match target_path(t) {
            None => target_failure(path, t),
            Some(p) => if r.parts@.is_prefix_of(p.parts@) {
                None
            } else {
                Some(
                    "Path '"@ + p.shown@ + "' is outside the workspace '"@ + r.shown@ + "'"@,
                )
            },
        },
    }
}

pub open spec fn root_view(root: Result<ResolvedPath, String>) -> Result<ResolvedPath, Seq<char>> {
    match root {
        Ok(p) => Ok(p),
        Err(e) => Err(e@),
    }
}

/// The resolved path, if it lies inside the workspace: its components begin with those of
/// the workspace folder.
pub fn ensure_path_in_workspace(
    path: &str,
    root: Result<ResolvedPath, String>,
    target: Target,
) -> (r: Result<ResolvedPath, String>)
    ensures
        match r {
            Ok(p) => outside_failure(path@, root_view(root), target) is None && target_path(target)
                == Some(p) && root is Ok && root->Ok_0.parts@.is_prefix_of(p.parts@),
            Err(e) => outside_failure(path@, root_view(root), target) == Some(e@),
        },
{
    let root = match root {
        Ok(r) => r,
        Err(e) => {
            return Err(e);
        },
    };
    let p = match resolve_target(path, target) {
        Ok(p) => p,
        Err(e) => {
            return Err(e);
        },
    };
    if p.parts.starts_with(&root.parts) {
        Ok(p)
    } else {
        let mut s = around(
            "Path '",
            p.shown.as_str(),
            "' is outside the workspace '",
            root.shown.as_str(),
        );
        s.append("'");
        Err(s)
    }
}

// ---- ignored files ---------------------------------------------------------------------------

/// The patterns of an ignore file: its lines, trimmed, without blank ones and comments.
pub open spec fn ignore_patterns(lines: Seq<Seq<char>>) -> Seq<Seq<char>>
    decreases lines.len(),
{
    if lines.len() == 0 {
        seq![]
    } else {
        let before = ignore_patterns(lines.drop_last());
        let l = text::trim(lines.last());
        if l.len() == 0 || text::starts_with(l, "#"@) {
            before
        } else {
            before.push(l)
        }
    }
}

pub fn parse_clif_ignore(content: &str) -> (r: Vec<String>)
    ensures
        text::texts(r@) == ignore_patterns(text::lines(content@)),
{
    let lines = text::str_lines(content);
    let ghost all = text::texts(lines@);
    let mut out: Vec<String> = Vec::new();
    let mut i: usize = 0;
    proof {
        assert(all.take(0) =~= Seq::<Seq<char>>::empty());
        assert(text::texts(out@) =~= Seq::<Seq<char>>::empty());
    }
    while i < lines.len()
        invariant
            all == text::texts(lines@),
            i <= lines@.len(),
            text::texts(out@) == ignore_patterns(all.take(i as int)),
        decreases lines.len() - i,
    {
        proof {
            assert(all.take(i as int + 1).drop_last() =~= all.take(i as int));
            assert(all.take(i as int + 1).last() == lines@[i as int]@);
        }
        let l = text::str_trim(lines[i].as_str());
        let ghost before = out@;
        if !l.as_str().is_empty() && !text::str_starts_with(l.as_str(), "#") {
            out.push(l);
            proof {
                assert(text::texts(out@) =~= text::texts(before).push(l@));
            }
        }
        i = i + 1;
    }
    proof {
        assert(all.take(i as int) =~= all);
    }
    out
}

/// A pattern covers a file: by its name or path, or, with a star at either end, by what the
/// name or path ends or begins with.
pub open spec fn covers(pattern: Seq<char>, name: Seq<char>, path: Seq<char>) -> bool {
    ||| pattern == name
    ||| pattern == path
    ||| pattern.len() > 0 && pattern[0] == '*' && (text::ends_with(name, pattern.skip(1))
        || text::ends_with(path, pattern.skip(1)))
    ||| pattern.len() > 0 && pattern.last() == '*' && (text::starts_with(name, pattern.drop_last())
        || text::starts_with(path, pattern.drop_last()))
}

pub open spec fn ignored(name: Seq<char>, path: Seq<char>, patterns: Seq<Seq<char>>) -> bool {
    exists|i: int| 0 <= i < patterns.len() && covers(#[trigger] patterns[i], name, path)
}

fn is_covered(pattern: &str, name: &str, path: &str) -> (r: bool)
    ensures
        r == covers(pattern@, name@, path@),
{
    if text::str_eq(pattern, name) || text::str_eq(pattern, path) {
        return true;
    }
    let p = text::to_chars(pattern);
    if p.len() == 0 {
        return false;
    }
    if p[0] == '*' {
        let rest = text::substring(&p, 1, p.len());
        proof {
            assert(rest@ =~= pattern@.skip(1));
        }
        if text::str_ends_with(name, rest.as_str()) || text::str_ends_with(path, rest.as_str()) {
            return true;
        }
    }
    if p[p.len() - 1] == '*' {
        let rest = text::substring(&p, 0, p.len() - 1);
        proof {
            assert(rest@ =~= pattern@.drop_last());
        }
        if text::str_starts_with(name, rest.as_str()) || text::str_starts_with(
            path,
            rest.as_str(),
        ) {
            return true;
        }
    }
    false
}

/// A file, by its name and its path, is covered by one of the patterns.
pub fn is_clif_ignored(name: &str, rel_path: &str, patterns: &Vec<String>) -> (r: bool)
    ensures
        r == ignored(name@, rel_path@, text::texts(patterns@)),
{
    let ghost all = text::texts(patterns@);
    let mut i: usize = 0;
    while i < patterns.len()
        invariant
            all == text::texts(patterns@),
            i <= patterns@.len(),
            forall|j: int| 0 <= j < i ==> !covers(#[trigger] all[j], name@, rel_path@),
        decreases patterns.len() - i,
    {
        if is_covered(patterns[i].as_str(), name, rel_path) {
            proof {
                assert(covers(all[i as int], name@, rel_path@));
            }
            return true;
        }
        i = i + 1;
    }
    false
}

// ---- the file tree ----------------------------------------------------------------------------

pub open spec fn skipped_dir(name: Seq<char>) -> bool {
    name == "node_modules"@ || name == ".git"@ || name == "target"@ || name == "dist"@ || name
        == ".next"@ || name == "__pycache__"@ || name == ".venv"@ || name == "build"@ || name
        == "out"@
}

/// An entry is part of the file tree.
pub open spec fn kept(
    depth: nat,
    name: Seq<char>,
    is_dir: bool,
    path: Seq<char>,
    patterns: Seq<Seq<char>>,
) -> bool {
    !(depth > 0 && text::starts_with(name, "."@)) && !(is_dir && skipped_dir(name)) && !ignored(
        name,
        path,
        patterns,
    )
}

/// Whether the walk over the workspace takes an entry, and goes into it.
pub fn keep_entry(
    depth: usize,
    name: &str,
    is_dir: bool,
    rel_path: &str,
    patterns: &Vec<String>,
) -> (r: bool)
    ensures
        r == kept(depth as nat, name@, is_dir, rel_path@, text::texts(patterns@)),
{
    if depth > 0 && text::str_starts_with(name, ".") {
        return false;
    }
    if is_dir && (text::str_eq(name, "node_modules") || text::str_eq(name, ".git") || text::str_eq(
        name,
        "target",
    ) || text::str_eq(name, "dist") || text::str_eq(name, ".next") || text::str_eq(
        name,
        "__pycache__",
    ) || text::str_eq(name, ".venv") || text::str_eq(name, "build") || text::str_eq(name, "out")) {
        return false;
    }
    !is_clif_ignored(name, rel_path, patterns)
}

pub open spec fn indent(n: nat) -> Seq<char>
    decreases n,
{
    if n == 0 {
        seq![]
    } else {
        indent((n - 1) as nat) + "  "@
    }
}

/// The line of an entry below the root.
pub open spec fn tree_line(depth: nat, name: Seq<char>, is_dir: bool) -> Seq<char> {
    indent((depth - 1) as nat) + name + if is_dir {
        "/"@
    } else {
        ""@
    }
}

/// The bytes of the lines, each with its line end.
pub open spec fn lines_size(lines: Seq<Seq<char>>) -> nat
    decreases lines.len(),
{
    if lines.len() == 0 {
        0
    } else {
        lines_size(lines.drop_last()) + text::byte_len(lines.last()) + 1
    }
}

/// The size that a file tree must exceed to be cut off.
pub const SNAPSHOT_CAP: usize = 3000;

/// The file tree with one more line, and whether it is cut off there.
pub open spec fn tree_with(lines: Seq<Seq<char>>, line: Seq<char>) -> (Seq<Seq<char>>, bool) {
    let more = lines.push(line);
    if lines_size(more) > SNAPSHOT_CAP {
        (more.push("  ... (truncated)"@), true)
    } else {
        (more, false)
    }
}

/// The file tree of a workspace, as it is being collected.
pub struct Snapshot {
    lines: Vec<String>,
    size: usize,
    full: bool,
}

impl Snapshot {
    pub closed spec fn lines(&self) -> Seq<Seq<char>> {
        text::texts(self.lines@)
    }

    /// Nothing more is taken.
    pub closed spec fn full(&self) -> bool {
        self.full
    }

    pub closed spec fn wf(&self) -> bool {
        !self.full ==> self.size == lines_size(self.lines()) && self.size <= SNAPSHOT_CAP
    }

    pub fn new() -> (r: Self)
        ensures
            r.wf(),
            !r.full(),
            r.lines() == Seq::<Seq<char>>::empty(),
    {
        let lines: Vec<String> = Vec::new();
        let r = Snapshot { lines, size: 0, full: false };
        proof {
            assert(r.lines() =~= Seq::<Seq<char>>::empty());
        }
        r
    }

    pub fn is_full(&self) -> (r: bool)
        ensures
            r == self.full(),
    {
        self.full
    }

    /// Takes an entry, `depth` levels below the root.
    pub fn add_entry(&mut self, depth: usize, name: &str, is_dir: bool)
        requires
            old(self).wf(),
            !old(self).full(),
            depth >= 1,
        ensures
            final(self).wf(),
            (final(self).lines(), final(self).full()) == tree_with(
                old(self).lines(),
                tree_line(depth as nat, name@, is_dir),
            ),
    {
        let mut line = String::new();
        let mut d: usize = 1;
        proof {
            assert(line@ =~= indent(0));
        }
        while d < depth
            invariant
                1 <= d <= depth,
                line@ == indent((d - 1) as nat),
            decreases depth - d,
        {
            line.append("  ");
            d = d + 1;
        }
        line.append(name);
        line.append(
            if is_dir {
                "/"
            } else {
                ""
            },
        );
        let ghost before = self.lines();
        let ghost made = line@;
        let n = text::str_bytes(line.as_str());
        self.lines.push(line);
        proof {
            assert(self.lines() =~= before.push(made));
            assert(before.push(made).drop_last() =~= before);
        }
        if n >= SNAPSHOT_CAP - self.size {
            self.full = true;
            let ghost mid = self.lines();
            self.lines.push(text::copy("  ... (truncated)"));
            proof {
                assert(self.lines() =~= mid.push("  ... (truncated)"@));
            }
        } else {
            self.size = self.size + n + 1;
        }
    }

    pub fn text(&self) -> (r: String)
        ensures
            r@ == text::join(self.lines(), "\n"@),
    {
        text::join_strings(&self.lines, "\n")
    }
}

// ---- providers ----------------------------------------------------------------------------------

pub open spec fn provider_url(provider: Seq<char>) -> Seq<char> {
    if provider == "lmstudio"@ {
        "http://localhost:1234/v1/chat/completions"@
    } else {
        "https://openrouter.ai/api/v1/chat/completions"@
    }
}

pub fn get_provider_url(provider: &str) -> (r: String)
    ensures
        r@ == provider_url(provider@),
{
    if text::str_eq(provider, "lmstudio") {
        text::copy("http://localhost:1234/v1/chat/completions")
    } else {
        text::copy("https://openrouter.ai/api/v1/chat/completions")
    }
}

/// The key of a provider in a parsed key file.
pub open spec fn key_in(file: Result<json::JsonV, Seq<char>>, provider: Seq<char>) -> Option<
    Seq<char>,
> {
    match file {
        Ok(v) => v.get_text(provider),
        Err(_) => None,
    }
}

/// The key of a provider in a value read from a key file.
pub fn api_key_in(keys: &json::Json, provider: &str) -> (r: Option<String>)
    ensures
        match r {
            Some(k) => keys@.get_text(provider@) == Some(k@),
            None => keys@.get_text(provider@) is None,
        },
{
    match keys.get_str(provider) {
        Some(s) => Some(text::copy(s)),
        None => None,
    }
}

/// The key of a provider in the text of a key file.
pub fn load_api_key(content: &str, provider: &str) -> (r: Option<String>)
    ensures
        match r {
            Some(k) => key_in(json::parsed(content@), provider@) == Some(k@),
            None => key_in(json::parsed(content@), provider@) is None,
        },
{
    match json::parse(content) {
        Ok(v) => api_key_in(&v, provider),
        Err(_) => None,
    }
}

// ---- laws -----------------------------------------------------------------------------------------

/// An absolute path is taken as it is; any other lies below the workspace.
pub proof fn law_resolved_paths(path: Seq<char>, workspace: Seq<char>)
    ensures
        path.len() > 0 && (path[0] == '/' || path[0] == '\\') ==> resolved(path, workspace) == path,
        path.len() == 0 || (path[0] != '/' && path[0] != '\\') ==> resolved(path, workspace)
            == workspace + seq!['/'] + path,
{
    reveal_strlit("/");
    reveal_strlit("\\");
    assert("/"@ =~= seq!['/']);
    if path.len() > 0 {
        assert(path.subrange(0, 1) =~= seq![path[0]]);
        assert("\\"@ =~= seq!['\\']);
        if path[0] != '/' {
            assert(seq![path[0]][0] != seq!['/'][0]);
        }
        if path[0] != '\\' {
            assert(seq![path[0]][0] != seq!['\\'][0]);
        }
    }
}

/// A path may be used exactly when it lies at or below the workspace folder, component by
/// component; one that does not is refused by name, and a failure to resolve it is told.
pub proof fn law_paths_stay_inside(path: Seq<char>, root: ResolvedPath, p: ResolvedPath, e: String)
    ensures
        outside_failure(path, Ok(root), Target::Existing(Ok(p))) is None <==> p.parts@.len()
            >= root.parts@.len() && p.parts@.take(root.parts@.len() as int) == root.parts@,
        outside_failure(path, Ok(root), Target::Existing(Ok(p))) matches Some(m) ==> m == "Path '"@
            + p.shown@ + "' is outside the workspace '"@ + root.shown@ + "'"@,
        outside_failure(path, Ok(root), Target::Existing(Err(e))) == Some(
            "Failed to resolve path '"@ + path + "': "@ + e@,
        ),
        outside_failure(
            path,
            Ok(root),
            Target::Missing { parent: Some((e, Ok(()))), below: Some(p) },
        ) == outside_failure(path, Ok(root), Target::Existing(Ok(p))),
        forall|t: Target| #[trigger] outside_failure(path, Err(e@), t) == Some(e@),
{
    if p.parts@.len() >= root.parts@.len() {
        assert(p.parts@.take(root.parts@.len() as int) =~= p.parts@.subrange(
            0,
            root.parts@.len() as int,
        ));
    }
}

/// The failures of a workspace folder are told with its name, and a missing one is told apart.
pub proof fn law_root_failures(workspace: Seq<char>, error: Seq<char>)
    ensures
        root_failure(workspace, true, error) == "Failed to resolve workspace root '"@ + workspace
            + "': "@ + error,
        root_failure(workspace, false, error) == "The open project folder '"@ + workspace
            + "' no longer exists. Open a folder in ClifPad (File → Open Folder) before using file tools."@,
        usable(workspace, false) == false,
        usable(workspace, true) <==> text::trim(workspace).len() > 0,
        provider_url("lmstudio"@) == "http://localhost:1234/v1/chat/completions"@,
        workspace != "lmstudio"@ ==> provider_url(workspace)
            == "https://openrouter.ai/api/v1/chat/completions"@,
{
    text::law_trim(workspace);
}

/// The patterns of an ignore file go line by line: one more line adds its trimmed text, unless that
/// is empty or a comment.
pub proof fn law_ignore_lines(a: Seq<Seq<char>>, b: Seq<Seq<char>>, line: Seq<char>)
    ensures
        ignore_patterns(a + b) == ignore_patterns(a) + ignore_patterns(b),
        ignore_patterns(seq![line]) == (if text::trim(line).len() == 0 || text::trim(line)[0] == '#' {
            Seq::<Seq<char>>::empty()
        } else {
            seq![text::trim(line)]
        }),
    decreases b.len(),
{
    reveal_strlit("#");
    let l = text::trim(line);
    assert(seq![line].drop_last() =~= Seq::<Seq<char>>::empty());
    assert(ignore_patterns(Seq::<Seq<char>>::empty()) =~= Seq::<Seq<char>>::empty());
    if l.len() > 0 {
        assert("#"@ =~= seq!['#']);
        assert(l.subrange(0, 1) =~= seq![l[0]]);
        assert(l[0] != '#' ==> seq![l[0]][0] != seq!['#'][0]);
        assert(text::starts_with(l, "#"@) <==> l[0] == '#');
        assert(Seq::<Seq<char>>::empty().push(l) =~= seq![l]);
    }
    if b.len() == 0 {
        assert(a + b =~= a);
        assert(ignore_patterns(a) + ignore_patterns(b) =~= ignore_patterns(a));
    } else {
        law_ignore_lines(a, b.drop_last(), line);
        assert((a + b).drop_last() =~= a + b.drop_last());
        assert(ignore_patterns(a + b) =~= ignore_patterns(a) + ignore_patterns(b));
    }
}

/// What a pattern covers: without a star at either end, only its own name or path; with one in
/// front, what ends like it; with one behind, what begins like it.
pub proof fn law_patterns(p: Seq<char>, name: Seq<char>, path: Seq<char>, rest: Seq<char>)
    ensures
        covers(name, name, path),
        covers(path, name, path),
        p.len() > 0 && p[0] != '*' && p.last() != '*' ==> (covers(p, name, path) <==> p == name || p
            == path),
        covers(seq!['*'] + p, rest + p, path),
        covers(seq!['*'] + p, name, rest + p),
        covers(p + seq!['*'], p + rest, path),
        covers(p + seq!['*'], name, p + rest),
        p.len() > 0 && p.last() != '*' && covers(seq!['*'] + p, name, path) && seq!['*'] + p != name
            && seq!['*'] + p != path ==> text::ends_with(name, p) || text::ends_with(path, p),
        p.len() > 0 && p[0] != '*' && covers(p + seq!['*'], name, path) && p + seq!['*'] != name
            && p + seq!['*'] != path ==> text::starts_with(name, p) || text::starts_with(path, p),
{
    let front = seq!['*'] + p;
    let back = p + seq!['*'];
    assert(front.skip(1) =~= p);
    assert(back.drop_last() =~= p);
    assert((rest + p).subrange((rest + p).len() - p.len(), (rest + p).len() as int) =~= p);
    assert((p + rest).subrange(0, p.len() as int) =~= p);
}

/// What the tree leaves out: hidden entries below the root, the folders that are built or fetched,
/// and what a pattern covers; nothing else.
pub proof fn law_kept_entries(
    depth: nat,
    name: Seq<char>,
    is_dir: bool,
    path: Seq<char>,
    patterns: Seq<Seq<char>>,
    i: int,
)
    ensures
        0 <= i < patterns.len() && covers(patterns[i], name, path) ==> !kept(
            depth,
            name,
            is_dir,
            path,
            patterns,
        ),
        depth > 0 && name.len() > 0 && name[0] == '.' ==> !kept(depth, name, is_dir, path, patterns),
        !kept(depth, "node_modules"@, true, path, patterns),
        !kept(depth, ".git"@, true, path, patterns),
        !kept(depth, "target"@, true, path, patterns),
        !kept(depth, "dist"@, true, path, patterns),
        !kept(depth, ".next"@, true, path, patterns),
        !kept(depth, "__pycache__"@, true, path, patterns),
        !kept(depth, ".venv"@, true, path, patterns),
        !kept(depth, "build"@, true, path, patterns),
        !kept(depth, "out"@, true, path, patterns),
        (forall|k: int| 0 <= k < patterns.len() ==> !covers(#[trigger] patterns[k], name, path))
            && !is_dir && (depth == 0 || name.len() == 0 || name[0] != '.') ==> kept(
            depth,
            name,
            is_dir,
            path,
            patterns,
        ),
{
    reveal_strlit(".");
    assert("."@ =~= seq!['.']);
    if name.len() > 0 {
        assert(name.subrange(0, 1) =~= seq![name[0]]);
        assert(name[0] != '.' ==> seq![name[0]][0] != seq!['.'][0]);
    }
}

proof fn lemma_indent(n: nat)
    ensures
        indent(n).len() == 2 * n,
        forall|i: int| 0 <= i < 2 * n ==> #[trigger] indent(n)[i] == ' ',
    decreases n,
{
    reveal_strlit("  ");
    if n > 0 {
        lemma_indent((n - 1) as nat);
    }
}

/// The line of an entry: two blanks for each folder that it lies in below the root, its name, and a
/// slash behind a folder's.
pub proof fn law_tree_lines(depth: nat, name: Seq<char>, is_dir: bool)
    requires
        depth > 0,
    ensures
        ({
            let line = tree_line(depth, name, is_dir);
            let k = 2 * (depth - 1);
            &&& line.len() == k + name.len() + (if is_dir {
                1int
            } else {
                0
            })
            &&& forall|i: int| 0 <= i < k ==> #[trigger] line[i] == ' '
            &&& line.subrange(k, k + name.len()) == name
            &&& is_dir ==> line.last() == '/'
        }),
{
    reveal_strlit("/");
    reveal_strlit("");
    lemma_indent((depth - 1) as nat);
    let line = tree_line(depth, name, is_dir);
    let k = 2 * (depth - 1);
    assert forall|i: int| 0 <= i < k implies #[trigger] line[i] == ' ' by {
        assert(line[i] == indent((depth - 1) as nat)[i]);
    }
    assert(line.subrange(k, k + name.len()) =~= name);
}

proof fn lemma_lines_size(lines: Seq<Seq<char>>, line: Seq<char>)
    ensures
        lines_size(lines.push(line)) == lines_size(lines) + text::byte_len(line) + 1,
{
    assert(lines.push(line).drop_last() =~= lines);
}

/// The tree keeps every line that came before, in order, with the new one behind them; it is cut
/// off, and says so, when it has grown beyond three thousand bytes.
pub proof fn law_tree_grows(lines: Seq<Seq<char>>, line: Seq<char>)
    ensures
        lines_size(Seq::empty()) == 0,
        lines_size(lines.push(line)) == lines_size(lines) + text::byte_len(line) + 1,
        tree_with(lines, line).1 <==> lines_size(lines) + text::byte_len(line) + 1 > 3000,
        !tree_with(lines, line).1 ==> tree_with(lines, line).0 == lines.push(line),
        tree_with(lines, line).1 ==> tree_with(lines, line).0 == lines.push(line).push(
            "  ... (truncated)"@,
        ),
{
    lemma_lines_size(lines, line);
}

/// The key of a provider is the text that the key file has under its name.
pub proof fn law_keys(v: json::JsonV, provider: Seq<char>, e: Seq<char>)
    ensures
        key_in(Ok(v), provider) == v.get_text(provider),
        key_in(Err(e), provider) is None,
{
}

} // verus!
