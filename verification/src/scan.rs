//! Models that other tools have already put on the disk.
use vstd::prelude::*;

use crate::hf;
use crate::json;
use crate::json::Json;
use crate::json::JsonV;
use crate::order;
use crate::places;
use crate::places::Base;
use crate::places::Place;
use crate::places::PlaceV;
use crate::places::Surroundings;
use crate::ranking;
use crate::ranking::Rank;
use crate::store;
use crate::text;

verus! {

#[derive(Debug, PartialEq)]
pub struct DiscoveredModel {
    /// "lmstudio", "huggingface", "ollama" or "clif".
    pub source: String,
    pub name: String,
    pub filename: String,
    pub path: String,
    pub size_bytes: u64,
    pub quant: String,
}

pub struct DiscoveredV {
    pub source: Seq<char>,
    pub name: Seq<char>,
    pub filename: Seq<char>,
    pub path: Seq<char>,
    pub size_bytes: u64,
    pub quant: Seq<char>,
}

impl View for DiscoveredModel {
    type V = DiscoveredV;

    open spec fn view(&self) -> DiscoveredV {
        DiscoveredV {
            source: self.source@,
            name: self.name@,
            filename: self.filename@,
            path: self.path@,
            size_bytes: self.size_bytes,
            quant: self.quant@,
        }
    }
}

// ---- where to look -----------------------------------------------------------------------------

/// How a store keeps its models.
#[derive(Debug, Clone, Copy, PartialEq, Eq, Structural)]
pub enum Layout {
    /// As files of weights, at most six levels down.
    Files,
    /// As blobs that manifests name.
    Ollama,
}

/// A folder to look into.
pub struct StoreDir {
    pub source: String,
    pub place: Place,
    pub layout: Layout,
}

pub struct StoreDirV {
    pub source: Seq<char>,
    pub place: PlaceV,
    pub layout: Layout,
}

impl View for StoreDir {
    type V = StoreDirV;

    open spec fn view(&self) -> StoreDirV {
        StoreDirV { source: self.source@, place: self.place@, layout: self.layout }
    }
}

pub open spec fn dir(source: Seq<char>, place: PlaceV, layout: Layout) -> StoreDirV {
    StoreDirV { source, place, layout }
}

/// The stores of other tools in the user's own folder.
pub open spec fn home_stores(h: Base) -> Seq<StoreDirV> {
    let cache = places::below(places::at(h), ".cache"@);
    seq![
        dir(
            "lmstudio"@,
            places::below(places::below(places::at(h), ".lmstudio"@), "models"@),
            Layout::Files,
        ),
        dir(
            "lmstudio"@,
            places::below(places::below(cache, "lm-studio"@), "models"@),
            Layout::Files,
        ),
        dir(
            "huggingface"@,
            places::below(places::below(cache, "huggingface"@), "hub"@),
            Layout::Files,
        ),
        dir(
            "ollama"@,
            places::below(places::below(places::at(h), ".ollama"@), "models"@),
            Layout::Ollama,
        ),
    ]
}

pub open spec fn stores_v(s: Surroundings) -> Seq<StoreDirV> {
    (match places::home_v(s) {
        Some(h) => home_stores(h),
        None => seq![],
    }).push(dir("clif"@, store::models_v(s), Layout::Files))
}

fn store_dir(source: &str, place: Place, layout: Layout) -> (r: StoreDir)
    ensures
        r@ == dir(source@, place@, layout),
{
    StoreDir { source: text::copy(source), place, layout }
}

/// The folders to look into, in this order: those of other tools, then our own.
pub fn store_dirs(s: &Surroundings) -> (r: Vec<StoreDir>)
    ensures
        ranking::views(r@) == stores_v(*s),
{
    let mut out: Vec<StoreDir> = Vec::new();
    if let Some(h) = places::home_dir(s) {
        out.push(
            store_dir("lmstudio", Place::at(h).join(".lmstudio").join("models"), Layout::Files),
        );
        out.push(
            store_dir(
                "lmstudio",
                Place::at(h).join(".cache").join("lm-studio").join("models"),
                Layout::Files,
            ),
        );
        out.push(
            store_dir(
                "huggingface",
                Place::at(h).join(".cache").join("huggingface").join("hub"),
                Layout::Files,
            ),
        );
        out.push(
            store_dir("ollama", Place::at(h).join(".ollama").join("models"), Layout::Ollama),
        );
    }
    out.push(store_dir("clif", store::models_dir(s), Layout::Files));
    proof {
        assert(ranking::views(out@) =~= stores_v(*s));
    }
    out
}

// ---- files of weights --------------------------------------------------------------------------

/// An entry of a folder of weights.
pub struct FoundFile {
    pub name: String,
    /// The name of the folder that it is in.
    pub parent: Option<String>,
    pub path: String,
    pub size: u64,
}

pub struct FoundFileV {
    pub name: Seq<char>,
    pub parent: Option<Seq<char>>,
    pub path: Seq<char>,
    pub size: u64,
}

impl View for FoundFile {
    type V = FoundFileV;

    open spec fn view(&self) -> FoundFileV {
        FoundFileV {
            name: self.name@,
            parent: match self.parent {
                Some(p) => Some(p@),
                None => None,
            },
            path: self.path@,
            size: self.size,
        }
    }
}

/// The name, in lower case, is that of a file of weights, or of the first of its parts.
pub open spec fn counts(lower: Seq<char>) -> bool {
    text::ends_with(lower, ".gguf"@) && !text::ends_with(lower, ".part"@) && !(text::contains(
        lower,
        "-of-"@,
    ) && !text::contains(lower, "00001-of-"@))
}

pub fn is_model_file(lower: &str) -> (r: bool)
    ensures
        r == counts(lower@),
{
    text::str_ends_with(lower, ".gguf") && !text::str_ends_with(lower, ".part")
        && !(text::str_contains(lower, "-of-") && !text::str_contains(lower, "00001-of-"))
}

/// The text without any `.gguf` at its end.
pub open spec fn without_ending(s: Seq<char>) -> Seq<char>
    decreases s.len(),
{
    if s.len() >= 5 && text::ends_with(s, ".gguf"@) {
        without_ending(s.take(s.len() - 5))
    } else {
        s
    }
}

/// The folder tells what the model is.
pub open spec fn tells(parent: Seq<char>, lower: Seq<char>) -> bool {
    lower != "gguf"@ && !text::starts_with(lower, "snapshots"@) && text::byte_len(parent) > 2
}

/// What a model is called: as its folder, where that tells more than the file name.
pub open spec fn shown_name(parent: Option<Seq<char>>, filename: Seq<char>) -> Seq<char> {
    match parent {
        Some(p) => if tells(p, text::lowercase(p)) {
            p
        } else {
            without_ending(filename)
        },
        None => without_ending(filename),
    }
}

fn strip_ending(s: &str) -> (r: String)
    ensures
        r@ == without_ending(s@),
{
    let mut v = text::to_chars(s);
    proof {
        reveal_strlit(".gguf");
    }
    while v.len() >= 5 && v[v.len() - 5] == '.' && v[v.len() - 4] == 'g' && v[v.len() - 3] == 'g'
        && v[v.len() - 2] == 'u' && v[v.len() - 1] == 'f'
        invariant
            without_ending(s@) == without_ending(v@),
            ".gguf"@ == seq!['.', 'g', 'g', 'u', 'f'],
        ensures
            without_ending(v@) == v@,
            without_ending(s@) == without_ending(v@),
        decreases v.len(),
    {
        let n = v.len() - 5;
        proof {
            assert(v@.skip(v@.len() - 5) =~= ".gguf"@);
            assert(v@.subrange(v@.len() - 5, v@.len() as int) =~= ".gguf"@);
        }
        v.truncate(n);
    }
    proof {
        if v@.len() >= 5 && text::ends_with(v@, ".gguf"@) {
            let t = ".gguf"@;
            assert(v@.subrange(v@.len() - 5, v@.len() as int) =~= t);
            assert(v@[v@.len() - 5] == t[0]);
            assert(v@[v@.len() - 4] == t[1]);
            assert(v@[v@.len() - 3] == t[2]);
            assert(v@[v@.len() - 2] == t[3]);
            assert(v@[v@.len() - 1] == t[4]);
        }
    }
    text::from_chars(&v)
}

/// What a model is called, given the name of its folder in lower case too.
pub fn name_from(parent: Option<(&str, &str)>, filename: &str) -> (r: String)
    ensures
        r@ == (match parent {
            Some(p) => if tells(p.0@, p.1@) {
                p.0@
            } else {
                without_ending(filename@)
            },
            None => without_ending(filename@),
        }),
{
    if let Some((p, lower)) = parent {
        if !text::str_eq(lower, "gguf") && !text::str_starts_with(lower, "snapshots")
            && text::str_bytes(p) > 2 {
            return text::copy(p);
        }
    }
    strip_ending(filename)
}

pub fn pretty_name(parent: Option<&str>, filename: &str) -> (r: String)
    ensures
        r@ == shown_name(hf::str_opt(parent), filename@),
{
    match parent {
        Some(p) => name_from(Some((p, text::to_lowercase(p).as_str())), filename),
        None => name_from(None, filename),
    }
}

pub open spec fn file_model(source: Seq<char>, f: FoundFileV) -> DiscoveredV {
    DiscoveredV {
        source,
        name: shown_name(f.parent, f.name),
        filename: f.name,
        path: f.path,
        size_bytes: f.size,
        quant: hf::quant_of(text::lowercase(f.name)),
    }
}

/// The models among the entries of a folder.
pub open spec fn models_in(source: Seq<char>, files: Seq<FoundFileV>) -> Seq<DiscoveredV>
    decreases files.len(),
{
    if files.len() == 0 {
        seq![]
    } else if counts(text::lowercase(files.last().name)) {
        models_in(source, files.drop_last()).push(file_model(source, files.last()))
    } else {
        models_in(source, files.drop_last())
    }
}

fn push_model(out: &mut Vec<DiscoveredModel>, m: DiscoveredModel)
    ensures
        ranking::views(final(out)@) == ranking::views(old(out)@).push(m@),
{
    let ghost before = out@;
    out.push(m);
    proof {
        assert(ranking::views(out@) =~= ranking::views(before).push(m@));
    }
}

/// Adds the models among the entries of a folder.
pub fn scan_gguf_dir(source: &str, files: &Vec<FoundFile>, out: &mut Vec<DiscoveredModel>)
    ensures
        ranking::views(final(out)@) == ranking::views(old(out)@) + models_in(
            source@,
            ranking::views(files@),
        ),
{
    let ghost start = ranking::views(out@);
    let ghost all = ranking::views(files@);
    let mut i: usize = 0;
    proof {
        assert(all.take(0) =~= Seq::<FoundFileV>::empty());
        assert(start + models_in(source@, all.take(0)) =~= start);
    }
    while i < files.len()
        invariant
            all == ranking::views(files@),
            i <= files@.len(),
            ranking::views(out@) == start + models_in(source@, all.take(i as int)),
        decreases files.len() - i,
    {
        let f = &files[i];
        proof {
            assert(all.take(i as int + 1).drop_last() =~= all.take(i as int));
            assert(all.take(i as int + 1).last() == f@);
        }
        let ghost before = ranking::views(out@);
        if is_model_file(text::to_lowercase(f.name.as_str()).as_str()) {
            let parent = match &f.parent {
                Some(p) => Some(p.as_str()),
                None => None,
            };
            let m = DiscoveredModel {
                source: text::copy(source),
                name: pretty_name(parent, f.name.as_str()),
                filename: text::copy(f.name.as_str()),
                path: text::copy(f.path.as_str()),
                size_bytes: f.size,
                quant: hf::parse_quant(f.name.as_str()),
            };
            push_model(out, m);
            proof {
                assert(before.push(file_model(source@, f@)) =~= start + models_in(
                    source@,
                    all.take(i as int),
                ).push(file_model(source@, f@)));
            }
        }
        i = i + 1;
    }
    proof {
        assert(all.take(i as int) =~= all);
    }
}

// ---- manifests ---------------------------------------------------------------------------------

/// The layer that holds the weights.
pub open spec fn is_model_layer(l: JsonV) -> bool {
    match l.get_text("mediaType"@) {
        Some(m) => text::contains(m, ".model"@),
        None => false,
    }
}

pub open spec fn model_layer(layers: Seq<JsonV>, k: int) -> Option<JsonV>
    decreases layers.len() - k,
{
    if k < 0 || k >= layers.len() {
        None
    } else if is_model_layer(layers[k]) {
        Some(layers[k])
    } else {
        model_layer(layers, k + 1)
    }
}

pub open spec fn dashed(s: Seq<char>) -> Seq<char> {
    s.map_values(
        |c: char|
            if c == ':' {
                '-'
            } else {
                c
            },
    )
}

/// The blob that a manifest names, and its size.
pub open spec fn blob_of(manifest: JsonV) -> Option<(Seq<char>, u64)> {
    match manifest.get_items("layers"@) {
        None => None,
        Some(layers) => match model_layer(layers, 0) {
            None => None,
            Some(l) => {
                let digest = match l.get_text("digest"@) {
                    Some(d) => dashed(d),
                    None => seq![],
                };
                if digest.len() == 0 {
                    None
                } else {
                    Some(
                        (
                            digest,
                            match l.get_uint("size"@) {
                                Some(n) => n,
                                None => 0,
                            },
                        ),
                    )
                }
            },
        },
    }
}

fn dash(s: &str) -> (r: String)
    ensures
        r@ == dashed(s@),
{
    let v = text::to_chars(s);
    let mut out: Vec<char> = Vec::new();
    let mut i: usize = 0;
    while i < v.len()
        invariant
            v@ == s@,
            i == out@.len(),
            i <= v@.len(),
            forall|j: int|
                0 <= j < i ==> #[trigger] out@[j] == (if s@[j] == ':' {
                    '-'
                } else {
                    s@[j]
                }),
        decreases v.len() - i,
    {
        if v[i] == ':' {
            out.push('-');
        } else {
            out.push(v[i]);
        }
        i = i + 1;
    }
    proof {
        assert(out@ =~= dashed(s@));
    }
    text::from_chars(&out)
}

pub open spec fn blob_view(b: Option<(String, u64)>) -> Option<(Seq<char>, u64)> {
    match b {
        Some((d, n)) => Some((d@, n)),
        None => None,
    }
}

/// The blob that a manifest names, and its size.
pub fn blob_in(manifest: &Json) -> (r: Option<(String, u64)>)
    ensures
        blob_view(r) == blob_of(manifest@),
{
    let layers = match manifest.get_array("layers") {
        Some(l) => l,
        None => {
            return None;
        },
    };
    let ghost all = json::views(layers@);
    let mut k: usize = 0;
    while k < layers.len()
        invariant
            all == json::views(layers@),
            manifest@.get_items("layers"@) == Some(all),
            k <= layers@.len(),
            model_layer(all, 0) == model_layer(all, k as int),
        decreases layers.len() - k,
    {
        let l = &layers[k];
        proof {
            assert(all[k as int] == l@);
        }
        let holds = match l.get_str("mediaType") {
            Some(m) => text::str_contains(m, ".model"),
            None => false,
        };
        if holds {
            let digest = match l.get_str("digest") {
                Some(d) => dash(d),
                None => {
                    return None;
                },
            };
            if digest.as_str().unicode_len() == 0 {
                return None;
            }
            let size = match l.get_u64("size") {
                Some(n) => n,
                None => 0,
            };
            return Some((digest, size));
        }
        k = k + 1;
    }
    None
}

/// The blob that the content of a manifest names, and its size.
pub fn read_manifest(content: &str) -> (r: Option<(String, u64)>)
    ensures
        match json::parsed(content@) {
            Ok(v) => blob_view(r) == blob_of(v),
            Err(_) => r is None,
        },
{
    match json::parse(content) {
        Ok(v) => blob_in(&v),
        Err(_) => None,
    }
}

/// A manifest that names a blob: the manifest's own name, that of its folder, and the blob.
pub struct FoundBlob {
    pub tag: Option<String>,
    pub model: Option<String>,
    pub digest: String,
    pub path: String,
    pub size: u64,
}

pub struct FoundBlobV {
    pub tag: Option<Seq<char>>,
    pub model: Option<Seq<char>>,
    pub digest: Seq<char>,
    pub path: Seq<char>,
    pub size: u64,
}

impl View for FoundBlob {
    type V = FoundBlobV;

    open spec fn view(&self) -> FoundBlobV {
        FoundBlobV {
            tag: match self.tag {
                Some(s) => Some(s@),
                None => None,
            },
            model: match self.model {
                Some(s) => Some(s@),
                None => None,
            },
            digest: self.digest@,
            path: self.path@,
            size: self.size,
        }
    }
}

/// A model and its tag.
pub open spec fn tagged(model: Option<Seq<char>>, tag: Option<Seq<char>>) -> Seq<char> {
    (match model {
        Some(m) => m,
        None => "model"@,
    }) + ":"@ + (match tag {
        Some(t) => t,
        None => "latest"@,
    })
}

pub fn ollama_name(model: Option<&str>, tag: Option<&str>) -> (r: String)
    ensures
        r@ == tagged(hf::str_opt(model), hf::str_opt(tag)),
{
    let mut s = text::cat(
        match model {
            Some(m) => m,
            None => "model",
        },
        ":",
    );
    s.append(
        match tag {
            Some(t) => t,
            None => "latest",
        },
    );
    s
}

pub open spec fn blob_model(b: FoundBlobV) -> DiscoveredV {
    DiscoveredV {
        source: "ollama"@,
        name: tagged(b.model, b.tag),
        filename: b.digest + ".gguf"@,
        path: b.path,
        size_bytes: b.size,
        quant: "GGUF"@,
    }
}

/// Adds the models that manifests name.
pub fn scan_ollama(blobs: &Vec<FoundBlob>, out: &mut Vec<DiscoveredModel>)
    ensures
        ranking::views(final(out)@) == ranking::views(old(out)@) + ranking::views(
            blobs@,
        ).map_values(|b: FoundBlobV| blob_model(b)),
{
    let ghost start = ranking::views(out@);
    let ghost all = ranking::views(blobs@).map_values(|b: FoundBlobV| blob_model(b));
    let mut i: usize = 0;
    proof {
        assert(start + all.take(0) =~= start);
    }
    while i < blobs.len()
        invariant
            all == ranking::views(blobs@).map_values(|b: FoundBlobV| blob_model(b)),
            i <= blobs@.len(),
            ranking::views(out@) == start + all.take(i as int),
        decreases blobs.len() - i,
    {
        let b = &blobs[i];
        let model = match &b.model {
            Some(s) => Some(s.as_str()),
            None => None,
        };
        let tag = match &b.tag {
            Some(s) => Some(s.as_str()),
            None => None,
        };
        let ghost before = ranking::views(out@);
        push_model(
            out,
            DiscoveredModel {
                source: text::copy("ollama"),
                name: ollama_name(model, tag),
                filename: text::cat(b.digest.as_str(), ".gguf"),
                path: text::copy(b.path.as_str()),
                size_bytes: b.size,
                quant: text::copy("GGUF"),
            },
        );
        proof {
            assert(all[i as int] == blob_model(b@));
            assert(before.push(all[i as int]) =~= start + all.take(i as int + 1));
        }
        i = i + 1;
    }
    proof {
        assert(all.take(i as int) =~= all);
    }
}

// ---- the whole scan ------------------------------------------------------------------------------

/// Models rank by their path.
pub struct ByPath;

impl Rank<DiscoveredModel> for ByPath {
    open spec fn below() -> spec_fn(DiscoveredV, DiscoveredV) -> bool {
        |a: DiscoveredV, b: DiscoveredV| order::lex_lt(a.path, b.path)
    }

    fn is_below(a: &DiscoveredModel, b: &DiscoveredModel) -> (r: bool) {
        order::str_lt(a.path.as_str(), b.path.as_str())
    }
}

/// Larger models rank first.
pub struct LargestFirst;

impl Rank<DiscoveredModel> for LargestFirst {
    open spec fn below() -> spec_fn(DiscoveredV, DiscoveredV) -> bool {
        |a: DiscoveredV, b: DiscoveredV| b.size_bytes < a.size_bytes
    }

    fn is_below(a: &DiscoveredModel, b: &DiscoveredModel) -> (r: bool) {
        b.size_bytes < a.size_bytes
    }
}

/// Of neighbours with the same path, the first.
pub open spec fn once_each(s: Seq<DiscoveredV>) -> Seq<DiscoveredV>
    decreases s.len(),
{
    if s.len() == 0 {
        seq![]
    } else {
        let rest = once_each(s.drop_last());
        if rest.len() > 0 && rest.last().path == s.last().path {
            rest
        } else {
            rest.push(s.last())
        }
    }
}

pub open spec fn scanned(found: Seq<DiscoveredV>) -> Seq<DiscoveredV> {
    ranking::ranked(
        once_each(ranking::ranked(found, ByPath::below())),
        LargestFirst::below(),
    )
}

fn drop_repeats(v: Vec<DiscoveredModel>) -> (r: Vec<DiscoveredModel>)
    ensures
        ranking::views(r@) == once_each(ranking::views(v@)),
{
    let ghost all = ranking::views(v@);
    let mut rest = v;
    let mut out: Vec<DiscoveredModel> = Vec::new();
    let ghost mut i: int = 0;
    proof {
        assert(all.take(0) =~= Seq::<DiscoveredV>::empty());
        assert(ranking::views(out@) =~= Seq::<DiscoveredV>::empty());
        assert(ranking::views(rest@) =~= all.skip(0));
    }
    while rest.len() > 0
        invariant
            0 <= i <= all.len(),
            ranking::views(rest@) == all.skip(i),
            rest@.len() == all.len() - i,
            ranking::views(out@) == once_each(all.take(i)),
        decreases rest.len(),
    {
        let ghost before = rest@;
        let m = rest.remove(0);
        proof {
            assert(ranking::views(before)[0] == m@);
            assert(all[i] == m@);
            assert(ranking::views(rest@) =~= all.skip(i + 1)) by {
                assert forall|j: int| 0 <= j < rest@.len() implies ranking::views(rest@)[j]
                    == all.skip(i + 1)[j] by {
                    assert(rest@[j] == before[j + 1]);
                    assert(ranking::views(before)[j + 1] == all.skip(i)[j + 1]);
                }
            }
            assert(all.take(i + 1).drop_last() =~= all.take(i));
            assert(all.take(i + 1).last() == m@);
            assert(ranking::views(out@).len() == out@.len());
            i = i + 1;
        }
        let repeats = out.len() > 0 && text::str_eq(
            out[out.len() - 1].path.as_str(),
            m.path.as_str(),
        );
        if !repeats {
            push_model(&mut out, m);
        }
    }
    proof {
        assert(all.take(i) =~= all);
    }
    out
}

/// What a scan shows of what it found: each path once, the largest model first.
pub fn scan(found: Vec<DiscoveredModel>) -> (r: Vec<DiscoveredModel>)
    ensures
        ranking::views(r@) == scanned(ranking::views(found@)),
{
    let sorted = ranking::rank::<DiscoveredModel, ByPath>(found);
    ranking::rank::<DiscoveredModel, LargestFirst>(drop_repeats(sorted))
}

// ---- laws ----------------------------------------------------------------------------------------

proof fn lemma_paths_rank()
    ensures
        ranking::ranks(ByPath::below()),
{
    let below = ByPath::below();
    assert forall|a: DiscoveredV, b: DiscoveredV| #[trigger] below(a, b) implies !below(b, a) by {
        if below(b, a) {
            order::lemma_lex_transitive(a.path, b.path, a.path);
            order::lemma_lex_irreflexive(a.path);
        }
    }
    assert forall|a: DiscoveredV, b: DiscoveredV, c: DiscoveredV|
        !(#[trigger] below(b, a)) && !(#[trigger] below(c, b)) implies !below(c, a) by {
        order::lemma_lex_le_transitive(a.path, b.path, c.path);
    }
}

/// In order, repeats are neighbours: what is left has paths that strictly rise, and no path is
/// lost.
proof fn lemma_once_each(s: Seq<DiscoveredV>)
    requires
        ranking::in_order(s, ByPath::below()),
    ensures
        forall|i: int, j: int|
            0 <= i < j < once_each(s).len() ==> order::lex_lt(
                (#[trigger] once_each(s)[i]).path,
                (#[trigger] once_each(s)[j]).path,
            ),
        s.len() > 0 ==> once_each(s).len() > 0 && once_each(s).last().path == s.last().path,
        forall|k: int|
            0 <= k < s.len() ==> exists|i: int|
                0 <= i < once_each(s).len() && (#[trigger] once_each(s)[i]).path == (
                #[trigger] s[k]).path,
        forall|i: int| 0 <= i < once_each(s).len() ==> s.contains(#[trigger] once_each(s)[i]),
    decreases s.len(),
{
    if s.len() > 0 {
        let front = s.drop_last();
        assert forall|i: int, j: int| 0 <= i < j < front.len() implies !ByPath::below()(
            #[trigger] front[j],
            #[trigger] front[i],
        ) by {
            assert(front[i] == s[i] && front[j] == s[j]);
        }
        lemma_once_each(front);
        let rest = once_each(front);
        let r = once_each(s);
        if front.len() > 0 {
            assert(!ByPath::below()(s[s.len() - 1], s[s.len() - 2]));
            order::lemma_lex_total(front.last().path, s.last().path);
            if rest.last().path != s.last().path {
                assert(order::lex_lt(rest.last().path, s.last().path));
                assert forall|i: int, j: int| 0 <= i < j < r.len() implies order::lex_lt(
                    (#[trigger] r[i]).path,
                    (#[trigger] r[j]).path,
                ) by {
                    if j == rest.len() && i < rest.len() - 1 {
                        assert(order::lex_lt(rest[i].path, rest[rest.len() - 1].path));
                        order::lemma_lex_transitive(
                            rest[i].path,
                            rest.last().path,
                            s.last().path,
                        );
                    }
                }
            }
        }
        assert forall|k: int| 0 <= k < s.len() implies exists|i: int|
            0 <= i < r.len() && (#[trigger] r[i]).path == (#[trigger] s[k]).path by {
            if k < front.len() {
                assert(front[k] == s[k]);
                let i = choose|i: int| 0 <= i < rest.len() && (#[trigger] rest[i]).path == front[k].path;
                assert(r[i].path == s[k].path);
            } else {
                assert(r[r.len() - 1].path == s[k].path);
            }
        }
        assert forall|i: int| 0 <= i < r.len() implies s.contains(#[trigger] r[i]) by {
            if i < rest.len() {
                assert(front.contains(rest[i]));
                let k = choose|k: int| 0 <= k < front.len() && front[k] == rest[i];
                assert(s[k] == r[i]);
            } else {
                assert(s[s.len() - 1] == r[i]);
            }
        }
    }
}

/// A scan shows each path once and loses none, shows only what was found, and shows the largest
/// model first.
pub proof fn law_each_path_once(found: Seq<DiscoveredV>)
    ensures
        forall|i: int, j: int|
            0 <= i < j < scanned(found).len() ==> (#[trigger] scanned(found)[i]).path != (
            #[trigger] scanned(found)[j]).path,
        forall|k: int|
            0 <= k < found.len() ==> exists|i: int|
                0 <= i < scanned(found).len() && (#[trigger] scanned(found)[i]).path == (
                #[trigger] found[k]).path,
        forall|i: int|
            0 <= i < scanned(found).len() ==> found.contains(#[trigger] scanned(found)[i]),
        ranking::in_order(scanned(found), LargestFirst::below()),
{
    broadcast use vstd::seq_lib::group_to_multiset_ensures;

    lemma_paths_rank();
    let by_path = ranking::ranked(found, ByPath::below());
    ranking::law_ranked(found, ByPath::below());
    lemma_once_each(by_path);
    let once = once_each(by_path);
    ranking::law_ranked(once, LargestFirst::below());
    let r = scanned(found);
    assert forall|i: int, j: int| 0 <= i < j < once.len() implies (#[trigger] once[i]).path != (
    #[trigger] once[j]).path by {
        assert(order::lex_lt(once[i].path, once[j].path));
        order::lemma_lex_irreflexive(once[i].path);
    }
    assert(once.no_duplicates());
    once.lemma_multiset_has_no_duplicates();
    assert forall|x: DiscoveredV| r.to_multiset().contains(x) implies #[trigger] r.to_multiset().count(
        x,
    ) == 1 by {
        assert(once.to_multiset().contains(x));
    }
    r.lemma_multiset_has_no_duplicates_conv();
    assert forall|i: int, j: int| 0 <= i < j < r.len() implies (#[trigger] r[i]).path != (
    #[trigger] r[j]).path by {
        assert(r.contains(r[i]) && r.contains(r[j]));
        assert(once.to_multiset().count(r[i]) > 0 && once.to_multiset().count(r[j]) > 0);
        assert(once.contains(r[i]) && once.contains(r[j]));
        assert(r[i] != r[j]);
    }
    assert forall|k: int| 0 <= k < found.len() implies exists|i: int|
        0 <= i < r.len() && (#[trigger] r[i]).path == (#[trigger] found[k]).path by {
        assert(found.contains(found[k]));
        assert(by_path.to_multiset().count(found[k]) > 0);
        assert(by_path.contains(found[k]));
        let p = choose|p: int| 0 <= p < by_path.len() && by_path[p] == found[k];
        assert(by_path[p].path == found[k].path);
        let q = choose|q: int| 0 <= q < once.len() && (#[trigger] once[q]).path == by_path[p].path;
        assert(once.contains(once[q]));
        assert(r.to_multiset().count(once[q]) > 0);
        assert(r.contains(once[q]));
        let i = choose|i: int| 0 <= i < r.len() && r[i] == once[q];
        assert(r[i].path == found[k].path);
    }
    assert forall|i: int| 0 <= i < r.len() implies found.contains(#[trigger] r[i]) by {
        assert(r.contains(r[i]));
        assert(once.to_multiset().count(r[i]) > 0);
        assert(once.contains(r[i]));
        let q = choose|q: int| 0 <= q < once.len() && once[q] == r[i];
        assert(by_path.contains(once[q]));
        assert(found.to_multiset().count(r[i]) > 0);
    }
}

/// The models of a folder are all its files that count, in order, each with its own name, path and
/// size.
pub proof fn law_files_are_shown(source: Seq<char>, files: Seq<FoundFileV>)
    ensures
        models_in(source, files) == files.filter(
            |f: FoundFileV| counts(text::lowercase(f.name)),
        ).map_values(|f: FoundFileV| file_model(source, f)),
        forall|f: FoundFileV|
            ({
                let m = #[trigger] file_model(source, f);
                m.source == source && m.filename == f.name && m.path == f.path && m.size_bytes
                    == f.size && m.quant == hf::quant_of(text::lowercase(f.name))
            }),
    decreases files.len(),
{
    reveal(Seq::filter);
    let is = |f: FoundFileV| counts(text::lowercase(f.name));
    let of = |f: FoundFileV| file_model(source, f);
    if files.len() > 0 {
        law_files_are_shown(source, files.drop_last());
        let g = files.drop_last().filter(is);
        if counts(text::lowercase(files.last().name)) {
            assert(files.filter(is) =~= g.push(files.last()));
            assert(g.push(files.last()).map_values(of) =~= g.map_values(of).push(of(files.last())));
        } else {
            assert(files.filter(is) =~= g);
        }
    } else {
        assert(files.filter(is).map_values(of) =~= models_in(source, files));
    }
}

/// Which files count: those of weights, but of several parts only the first.
pub proof fn law_which_files_count(lower: Seq<char>)
    ensures
        counts(lower) ==> text::ends_with(lower, ".gguf"@),
        text::ends_with(lower, ".gguf"@) && !text::contains(lower, "-of-"@) ==> counts(lower),
        text::ends_with(lower, ".gguf"@) && text::contains(lower, "00001-of-"@) ==> counts(lower),
        text::contains(lower, "-of-"@) && !text::contains(lower, "00001-of-"@) ==> !counts(lower),
{
    reveal_strlit(".gguf");
    reveal_strlit(".part");
    if text::ends_with(lower, ".gguf"@) && text::ends_with(lower, ".part"@) {
        let n = lower.len() as int;
        assert(lower.subrange(n - 5, n)[1] == ".gguf"@[1]);
        assert(lower.subrange(n - 5, n)[1] == ".part"@[1]);
        assert(".gguf"@[1] == 'g' && ".part"@[1] == 'p');
    }
}

/// A model is called as its folder where that tells something, else as its file, without the ending.
pub proof fn law_shown_names(parent: Seq<char>, name: Seq<char>)
    ensures
        shown_name(None, name) == without_ending(name),
        text::lowercase(parent) == "gguf"@ ==> shown_name(Some(parent), name) == without_ending(
            name,
        ),
        text::starts_with(text::lowercase(parent), "snapshots"@) ==> shown_name(Some(parent), name)
            == without_ending(name),
        text::byte_len(parent) <= 2 ==> shown_name(Some(parent), name) == without_ending(name),
        text::lowercase(parent) != "gguf"@ && !text::starts_with(
            text::lowercase(parent),
            "snapshots"@,
        ) && text::byte_len(parent) > 2 ==> shown_name(Some(parent), name) == parent,
        !text::ends_with(name, ".gguf"@) ==> without_ending(name) == name,
        without_ending(name + ".gguf"@) == without_ending(name),
{
    reveal_strlit(".gguf");
    let whole = name + ".gguf"@;
    assert(".gguf"@.len() == 5);
    assert(whole.subrange(whole.len() - 5, whole.len() as int) =~= ".gguf"@);
    assert(whole.take(whole.len() - 5) =~= name);
}

/// The blob of a manifest is the digest of its first layer of weights, with dashes for colons, and
/// that layer's size; a manifest without such a layer names none.
pub proof fn law_manifests(
    manifest: JsonV,
    layers: Seq<JsonV>,
    i: int,
    m: Seq<char>,
    digest: Seq<char>,
)
    requires
        manifest.get_items("layers"@) == Some(layers),
    ensures
        (forall|j: int| 0 <= j < layers.len() ==> !is_model_layer(#[trigger] layers[j]))
            ==> blob_of(manifest) is None,
        0 <= i < layers.len() && (forall|j: int|
            0 <= j < i ==> !is_model_layer(#[trigger] layers[j])) && layers[i].get_text(
            "mediaType"@,
        ) == Some(m) && text::contains(m, ".model"@) && layers[i].get_text("digest"@) == Some(
            digest,
        ) && digest.len() > 0 ==> (blob_of(manifest) matches Some((name, size)) && {
            &&& name.len() == digest.len()
            &&& forall|k: int|
                0 <= k < digest.len() ==> #[trigger] name[k] == (if digest[k] == ':' {
                    '-'
                } else {
                    digest[k]
                })
            &&& layers[i].get_uint("size"@) is Some ==> size == layers[i].get_uint("size"@)->0
            &&& layers[i].get_uint("size"@) is None ==> size == 0
        }),
        forall|l: JsonV| l.get_text("mediaType"@) is None ==> !#[trigger] is_model_layer(l),
{
    if (forall|j: int| 0 <= j < layers.len() ==> !is_model_layer(#[trigger] layers[j])) {
        lemma_no_layer(layers, 0);
    }
    if 0 <= i < layers.len() && is_model_layer(layers[i]) && (forall|j: int|
        0 <= j < i ==> !is_model_layer(#[trigger] layers[j])) {
        lemma_layer(layers, 0, i);
        assert(model_layer(layers, 0) == Some(layers[i]));
    }
}

proof fn lemma_no_layer(layers: Seq<JsonV>, k: int)
    requires
        0 <= k <= layers.len(),
        forall|j: int| 0 <= j < layers.len() ==> !is_model_layer(#[trigger] layers[j]),
    ensures
        model_layer(layers, k) is None,
    decreases layers.len() - k,
{
    if k < layers.len() {
        assert(!is_model_layer(layers[k]));
        lemma_no_layer(layers, k + 1);
    }
}

proof fn lemma_layer(layers: Seq<JsonV>, k: int, i: int)
    requires
        0 <= k <= i < layers.len(),
        is_model_layer(layers[i]),
        forall|j: int| 0 <= j < i ==> !is_model_layer(#[trigger] layers[j]),
    ensures
        model_layer(layers, k) == Some(layers[i]),
    decreases i - k,
{
    if k < i {
        assert(!is_model_layer(layers[k]));
        lemma_layer(layers, k + 1, i);
    }
}

/// A model that a manifest names is shown by its name and tag, with its blob's path and size.
pub proof fn law_blobs_are_shown(b: FoundBlobV, model: Seq<char>, tag: Seq<char>)
    ensures
        b.model == Some(model) && b.tag == Some(tag) ==> blob_model(b).name == model + ":"@ + tag,
        b.model == Some(model) && b.tag is None ==> blob_model(b).name == model + ":"@ + "latest"@,
        b.model is None && b.tag == Some(tag) ==> blob_model(b).name == "model"@ + ":"@ + tag,
        blob_model(b).source == "ollama"@,
        blob_model(b).filename == b.digest + ".gguf"@,
        blob_model(b).path == b.path,
        blob_model(b).size_bytes == b.size,
        blob_model(b).quant == "GGUF"@,
{
}

/// The folders to look into: three stores of files and one of manifests in the user's own folder,
/// then our own, which is always looked into.
pub proof fn law_stores(s: Surroundings)
    ensures
        stores_v(s).len() > 0,
        stores_v(s).last().source == "clif"@,
        stores_v(s).last().place == store::models_v(s),
        stores_v(s).last().layout == Layout::Files,
        !s.home && !s.user_profile ==> stores_v(s).len() == 1,
        s.home ==> ({
            let d = stores_v(s);
            &&& d.len() == 5
            &&& d[0].source == "lmstudio"@ && d[0].place.base == Base::Home && d[0].place.names
                == seq![".lmstudio"@, "models"@] && d[0].layout == Layout::Files
            &&& d[1].source == "lmstudio"@ && d[1].place.base == Base::Home && d[1].place.names
                == seq![".cache"@, "lm-studio"@, "models"@] && d[1].layout == Layout::Files
            &&& d[2].source == "huggingface"@ && d[2].place.base == Base::Home && d[2].place.names
                == seq![".cache"@, "huggingface"@, "hub"@] && d[2].layout == Layout::Files
            &&& d[3].source == "ollama"@ && d[3].place.base == Base::Home && d[3].place.names
                == seq![".ollama"@, "models"@] && d[3].layout == Layout::Ollama
        }),
{
    if s.home {
        let d = stores_v(s);
        assert(d[0].place.names =~= seq![".lmstudio"@, "models"@]);
        assert(d[1].place.names =~= seq![".cache"@, "lm-studio"@, "models"@]);
        assert(d[2].place.names =~= seq![".cache"@, "huggingface"@, "hub"@]);
        assert(d[3].place.names =~= seq![".ollama"@, "models"@]);
    }
}

} // verus!
