//! What is asked of the Hugging Face Hub and what is made of its answers: which files of a repo
//! hold weights, how large they are, and which of them a model is downloaded from.
use vstd::prelude::*;

use crate::json::Json;
use crate::json::JsonV;
use crate::order;
use crate::ranking;
use crate::ranking::Rank;
use crate::text;

verus! {

// ---- requests ----------------------------------------------------------------------------------

pub open spec fn no_leading(s: Seq<char>) -> Seq<char>
    decreases s.len(),
{
    if s.len() > 0 && s[0] == '/' {
        no_leading(s.skip(1))
    } else {
        s
    }
}

pub open spec fn no_trailing(s: Seq<char>) -> Seq<char>
    decreases s.len(),
{
    if s.len() > 0 && s.last() == '/' {
        no_trailing(s.drop_last())
    } else {
        s
    }
}

/// The text without the slashes at its ends.
pub open spec fn trimmed(s: Seq<char>) -> Seq<char> {
    no_trailing(no_leading(s))
}

fn trim_slashes(s: &str) -> (r: String)
    ensures
        r@ == trimmed(s@),
{
    let v = text::to_chars(s);
    let mut lo: usize = 0;
    proof {
        assert(s@.skip(0) =~= s@);
    }
    while lo < v.len() && v[lo] == '/'
        invariant
            v@ == s@,
            lo <= v@.len(),
            no_leading(s@) == no_leading(s@.skip(lo as int)),
        decreases v.len() - lo,
    {
        proof {
            assert(s@.skip(lo as int).skip(1) =~= s@.skip(lo as int + 1));
        }
        lo = lo + 1;
    }
    let ghost front = s@.skip(lo as int);
    let mut hi: usize = v.len();
    proof {
        assert(front.take(hi - lo) =~= front);
    }
    while hi > lo && v[hi - 1] == '/'
        invariant
            v@ == s@,
            front == s@.skip(lo as int),
            lo <= hi <= v@.len(),
            no_trailing(front) == no_trailing(front.take(hi - lo)),
        decreases hi,
    {
        proof {
            assert(front.take(hi - lo).drop_last() =~= front.take(hi - lo - 1));
            assert(front.take(hi - lo).last() == v@[hi - 1]);
        }
        hi = hi - 1;
    }
    proof {
        assert(s@.subrange(lo as int, hi as int) =~= front.take(hi - lo));
    }
    text::substring(&v, lo, hi)
}

/// Where a file is downloaded from.
pub fn resolve_url(repo: &str, filename: &str) -> (r: String)
    ensures
        r@ == "https://huggingface.co/"@ + trimmed(repo@) + "/resolve/main/"@ + filename@,
{
    let mut s = text::cat("https://huggingface.co/", trim_slashes(repo).as_str());
    s.append("/resolve/main/");
    s.append(filename);
    s
}

/// Where the files of a repo are listed.
pub fn tree_url(repo: &str) -> (r: String)
    ensures
        r@ == "https://huggingface.co/api/models/"@ + trimmed(repo@)
            + "/tree/main?recursive=true&expand=true"@,
{
    let mut s = text::cat("https://huggingface.co/api/models/", trim_slashes(repo).as_str());
    s.append("/tree/main?recursive=true&expand=true");
    s
}

/// Where a repo is described.
pub fn info_url(repo: &str) -> (r: String)
    ensures
        r@ == "https://huggingface.co/api/models/"@ + trimmed(repo@),
{
    text::cat("https://huggingface.co/api/models/", trim_slashes(repo).as_str())
}

pub open spec fn query_v(query: Seq<char>) -> Seq<(Seq<char>, Seq<char>)> {
    seq![
        ("search"@, query),
        ("filter"@, "gguf"@),
        ("sort"@, "downloads"@),
        ("direction"@, "-1"@),
        ("limit"@, "24"@),
    ]
}

pub open spec fn pairs(v: Seq<(String, String)>) -> Seq<(Seq<char>, Seq<char>)> {
    v.map_values(|p: (String, String)| (p.0@, p.1@))
}

/// What a search asks for: repos with weights, those with most downloads first.
pub fn search_query(query: &str) -> (r: Vec<(String, String)>)
    ensures
        pairs(r@) == query_v(query@),
{
    let mut r: Vec<(String, String)> = Vec::new();
    r.push((text::copy("search"), text::copy(query)));
    r.push((text::copy("filter"), text::copy("gguf")));
    r.push((text::copy("sort"), text::copy("downloads")));
    r.push((text::copy("direction"), text::copy("-1")));
    r.push((text::copy("limit"), text::copy("24")));
    proof {
        assert(pairs(r@) =~= query_v(query@));
    }
    r
}

/// The token that is sent: the one given, else the one of the environment, unless it is empty.
pub open spec fn token_v(token: Option<Seq<char>>, env: Option<Seq<char>>) -> Option<Seq<char>> {
    let t = match token {
        Some(s) => Some(s),
        None => env,
    };
    match t {
        Some(s) => if s.len() == 0 {
            None
        } else {
            Some(s)
        },
        None => None,
    }
}

pub open spec fn str_opt(s: Option<&str>) -> Option<Seq<char>> {
    match s {
        Some(x) => Some(x@),
        None => None,
    }
}

pub fn token_value(token: Option<&str>, env: Option<&str>) -> (r: Option<String>)
    ensures
        match r {
            Some(s) => token_v(str_opt(token), str_opt(env)) == Some(s@),
            None => token_v(str_opt(token), str_opt(env)) is None,
        },
{
    let t = match token {
        Some(s) => Some(s),
        None => env,
    };
    match t {
        Some(s) => if s.unicode_len() == 0 {
            None
        } else {
            Some(text::copy(s))
        },
        None => None,
    }
}

// ---- files -------------------------------------------------------------------------------------

/// An entry of a repo's file tree.
pub struct TreeItem {
    pub kind: String,
    pub path: String,
    pub size: u64,
    /// The size of the stored file, where the entry only points to it.
    pub lfs_size: Option<u64>,
}

pub struct TreeItemV {
    pub kind: Seq<char>,
    pub path: Seq<char>,
    pub size: u64,
    pub lfs_size: Option<u64>,
}

impl View for TreeItem {
    type V = TreeItemV;

    open spec fn view(&self) -> TreeItemV {
        TreeItemV {
            kind: self.kind@,
            path: self.path@,
            size: self.size,
            lfs_size: self.lfs_size,
        }
    }
}

/// A file of weights, with its real size.
#[derive(Debug, PartialEq)]
pub struct HfFile {
    pub filename: String,
    pub size_bytes: u64,
}

pub struct HfFileV {
    pub filename: Seq<char>,
    pub size_bytes: u64,
}

impl View for HfFile {
    type V = HfFileV;

    open spec fn view(&self) -> HfFileV {
        HfFileV { filename: self.filename@, size_bytes: self.size_bytes }
    }
}

/// The file names rank by their text.
pub struct ByFilename;

impl Rank<HfFile> for ByFilename {
    open spec fn below() -> spec_fn(HfFileV, HfFileV) -> bool {
        |a: HfFileV, b: HfFileV| order::lex_lt(a.filename, b.filename)
    }

    fn is_below(a: &HfFile, b: &HfFile) -> (r: bool) {
        order::str_lt(a.filename.as_str(), b.filename.as_str())
    }
}

/// The stored size counts, unless it is missing or zero.
pub open spec fn real_size(i: TreeItemV) -> u64 {
    match i.lfs_size {
        Some(s) => if s > 0 {
            s
        } else {
            i.size
        },
        None => i.size,
    }
}

pub open spec fn holds_weights(i: TreeItemV) -> bool {
    i.kind == "file"@ && text::ends_with(text::lowercase(i.path), ".gguf"@)
}

/// The files of weights, in the order of the tree.
pub open spec fn weights_in(items: Seq<TreeItemV>) -> Seq<HfFileV>
    decreases items.len(),
{
    if items.len() == 0 {
        seq![]
    } else if holds_weights(items.last()) {
        weights_in(items.drop_last()).push(
            HfFileV { filename: items.last().path, size_bytes: real_size(items.last()) },
        )
    } else {
        weights_in(items.drop_last())
    }
}

/// The name, in lower case, is that of a file of weights.
pub fn is_gguf_name(lower: &str) -> (r: bool)
    ensures
        r == text::ends_with(lower@, ".gguf"@),
{
    text::str_ends_with(lower, ".gguf")
}

/// The files of weights of a repo, by name.
pub fn gguf_files(items: &Vec<TreeItem>) -> (r: Vec<HfFile>)
    ensures
        ranking::views(r@) == ranking::ranked(
            weights_in(ranking::views(items@)),
            ByFilename::below(),
        ),
{
    let ghost all = ranking::views(items@);
    let mut out: Vec<HfFile> = Vec::new();
    let mut i: usize = 0;
    proof {
        assert(all.take(0) =~= Seq::<TreeItemV>::empty());
        assert(ranking::views(out@) =~= weights_in(all.take(0)));
    }
    while i < items.len()
        invariant
            all == ranking::views(items@),
            i <= items@.len(),
            ranking::views(out@) == weights_in(all.take(i as int)),
        decreases items.len() - i,
    {
        let item = &items[i];
        proof {
            assert(all.take(i as int + 1).drop_last() =~= all.take(i as int));
            assert(all.take(i as int + 1).last() == item@);
        }
        let ghost before = out@;
        if text::str_eq(item.kind.as_str(), "file") && is_gguf_name(
            text::to_lowercase(item.path.as_str()).as_str(),
        ) {
            let size_bytes = match item.lfs_size {
                Some(s) => if s > 0 {
                    s
                } else {
                    item.size
                },
                None => item.size,
            };
            let file = HfFile { filename: text::copy(item.path.as_str()), size_bytes };
            let ghost seen = file@;
            out.push(file);
            proof {
                assert(ranking::views(out@) =~= ranking::views(before).push(seen));
            }
        }
        i = i + 1;
    }
    proof {
        assert(all.take(i as int) =~= all);
    }
    ranking::rank::<HfFile, ByFilename>(out)
}

// ---- quantizations -----------------------------------------------------------------------------

/// How weights are quantized: as file names say it, and as people write it.
pub open spec fn quants() -> Seq<(Seq<char>, Seq<char>)> {
    seq![
        ("iq1_s"@, "IQ1_S"@),
        ("iq2_xxs"@, "IQ2_XXS"@),
        ("iq2_xs"@, "IQ2_XS"@),
        ("iq2_s"@, "IQ2_S"@),
        ("iq3_xxs"@, "IQ3_XXS"@),
        ("iq3_s"@, "IQ3_S"@),
        ("iq4_xs"@, "IQ4_XS"@),
        ("iq4_nl"@, "IQ4_NL"@),
        ("q2_k"@, "Q2_K"@),
        ("q3_k_s"@, "Q3_K_S"@),
        ("q3_k_m"@, "Q3_K_M"@),
        ("q3_k_l"@, "Q3_K_L"@),
        ("q4_k_s"@, "Q4_K_S"@),
        ("q4_k_m"@, "Q4_K_M"@),
        ("q5_k_s"@, "Q5_K_S"@),
        ("q5_k_m"@, "Q5_K_M"@),
        ("q4_0"@, "Q4_0"@),
        ("q4_1"@, "Q4_1"@),
        ("q5_0"@, "Q5_0"@),
        ("q5_1"@, "Q5_1"@),
        ("q6_k"@, "Q6_K"@),
        ("q8_0"@, "Q8_0"@),
        ("f16"@, "F16"@),
        ("bf16"@, "BF16"@),
        ("f32"@, "F32"@),
    ]
}

/// The longest of the first `k` quantizations that the name holds, the first of several.
pub open spec fn best_quant(lower: Seq<char>, k: int) -> Option<(Seq<char>, Seq<char>)>
    decreases k,
{
    if k <= 0 {
        None
    } else {
        let before = best_quant(lower, k - 1);
        let q = quants()[k - 1];
        let longest = match before {
            Some(b) => b.0.len(),
            None => 0,
        };
        if text::contains(lower, q.0) && q.0.len() > longest {
            Some(q)
        } else {
            before
        }
    }
}

pub open spec fn quant_of(lower: Seq<char>) -> Seq<char> {
    match best_quant(lower, quants().len() as int) {
        Some(q) => q.1,
        None => "GGUF"@,
    }
}

fn quant_list() -> (r: Vec<(&'static str, &'static str)>)
    ensures
        r@.map_values(|p: (&'static str, &'static str)| (p.0@, p.1@)) == quants(),
{
    let mut v: Vec<(&'static str, &'static str)> = Vec::new();
    v.push(("iq1_s", "IQ1_S"));
    v.push(("iq2_xxs", "IQ2_XXS"));
    v.push(("iq2_xs", "IQ2_XS"));
    v.push(("iq2_s", "IQ2_S"));
    v.push(("iq3_xxs", "IQ3_XXS"));
    v.push(("iq3_s", "IQ3_S"));
    v.push(("iq4_xs", "IQ4_XS"));
    v.push(("iq4_nl", "IQ4_NL"));
    v.push(("q2_k", "Q2_K"));
    v.push(("q3_k_s", "Q3_K_S"));
    v.push(("q3_k_m", "Q3_K_M"));
    v.push(("q3_k_l", "Q3_K_L"));
    v.push(("q4_k_s", "Q4_K_S"));
    v.push(("q4_k_m", "Q4_K_M"));
    v.push(("q5_k_s", "Q5_K_S"));
    v.push(("q5_k_m", "Q5_K_M"));
    v.push(("q4_0", "Q4_0"));
    v.push(("q4_1", "Q4_1"));
    v.push(("q5_0", "Q5_0"));
    v.push(("q5_1", "Q5_1"));
    v.push(("q6_k", "Q6_K"));
    v.push(("q8_0", "Q8_0"));
    v.push(("f16", "F16"));
    v.push(("bf16", "BF16"));
    v.push(("f32", "F32"));
    proof {
        assert(v@.map_values(|p: (&'static str, &'static str)| (p.0@, p.1@)) =~= quants());
    }
    v
}

/// Reads the quantization off a file name in lower case.
pub fn quant_in(lower: &str) -> (r: String)
    ensures
        r@ == quant_of(lower@),
{
    let list = quant_list();
    let ghost all = list@.map_values(|p: (&'static str, &'static str)| (p.0@, p.1@));
    let mut longest: usize = 0;
    let mut label: &'static str = "GGUF";
    let mut k: usize = 0;
    while k < list.len()
        invariant
            all == list@.map_values(|p: (&'static str, &'static str)| (p.0@, p.1@)),
            all == quants(),
            k <= list@.len(),
            match best_quant(lower@, k as int) {
                Some(b) => longest == b.0.len() && label@ == b.1,
                None => longest == 0 && label@ == "GGUF"@,
            },
        decreases list.len() - k,
    {
        let token = list[k].0;
        proof {
            assert(all[k as int] == (token@, list@[k as int].1@));
        }
        let n = token.unicode_len();
        if n > longest && text::str_contains(lower, token) {
            longest = n;
            label = list[k].1;
        }
        k = k + 1;
    }
    text::copy(label)
}

/// Reads the quantization off a file name.
pub fn parse_quant(filename: &str) -> (r: String)
    ensures
        r@ == quant_of(text::lowercase(filename@)),
{
    quant_in(text::to_lowercase(filename).as_str())
}

// ---- variants ----------------------------------------------------------------------------------

/// A file of weights and how it is quantized.
#[derive(Debug, PartialEq)]
pub struct HfVariant {
    pub filename: String,
    /// The quantization, as well as the file name tells it, such as "Q4_K_M".
    pub quant: String,
    pub size_bytes: u64,
}

pub struct HfVariantV {
    pub filename: Seq<char>,
    pub quant: Seq<char>,
    pub size_bytes: u64,
}

impl View for HfVariant {
    type V = HfVariantV;

    open spec fn view(&self) -> HfVariantV {
        HfVariantV {
            filename: self.filename@,
            quant: self.quant@,
            size_bytes: self.size_bytes,
        }
    }
}

/// The variants rank by size.
pub struct BySize;

impl Rank<HfVariant> for BySize {
    open spec fn below() -> spec_fn(HfVariantV, HfVariantV) -> bool {
        |a: HfVariantV, b: HfVariantV| a.size_bytes < b.size_bytes
    }

    fn is_below(a: &HfVariant, b: &HfVariant) -> (r: bool) {
        a.size_bytes < b.size_bytes
    }
}

/// The file is one part of several.
pub open spec fn is_part(f: HfFileV) -> bool {
    text::contains(text::lowercase(f.filename), "-of-"@)
}

pub open spec fn variant_of(f: HfFileV) -> HfVariantV {
    HfVariantV {
        filename: f.filename,
        quant: quant_of(text::lowercase(f.filename)),
        size_bytes: f.size_bytes,
    }
}

/// The files that hold all of the weights.
pub open spec fn whole_files(files: Seq<HfFileV>) -> Seq<HfFileV>
    decreases files.len(),
{
    if files.len() == 0 {
        seq![]
    } else if is_part(files.last()) {
        whole_files(files.drop_last())
    } else {
        whole_files(files.drop_last()).push(files.last())
    }
}

fn copy_file(f: &HfFile) -> (r: HfFile)
    ensures
        r@ == f@,
{
    HfFile { filename: text::copy(f.filename.as_str()), size_bytes: f.size_bytes }
}

fn keep_whole(files: &Vec<HfFile>) -> (r: Vec<HfFile>)
    ensures
        ranking::views(r@) == whole_files(ranking::views(files@)),
{
    let ghost all = ranking::views(files@);
    let mut out: Vec<HfFile> = Vec::new();
    let mut i: usize = 0;
    proof {
        assert(all.take(0) =~= Seq::<HfFileV>::empty());
        assert(ranking::views(out@) =~= whole_files(all.take(0)));
    }
    while i < files.len()
        invariant
            all == ranking::views(files@),
            i <= files@.len(),
            ranking::views(out@) == whole_files(all.take(i as int)),
        decreases files.len() - i,
    {
        let f = &files[i];
        proof {
            assert(all.take(i as int + 1).drop_last() =~= all.take(i as int));
            assert(all.take(i as int + 1).last() == f@);
        }
        let ghost before = out@;
        if !text::str_contains(text::to_lowercase(f.filename.as_str()).as_str(), "-of-") {
            let c = copy_file(f);
            let ghost seen = c@;
            out.push(c);
            proof {
                assert(ranking::views(out@) =~= ranking::views(before).push(seen));
            }
        }
        i = i + 1;
    }
    proof {
        assert(all.take(i as int) =~= all);
    }
    out
}

pub open spec fn variants_v(files: Seq<HfFileV>) -> Seq<HfVariantV> {
    ranking::ranked(
        whole_files(files).map_values(|f: HfFileV| variant_of(f)),
        BySize::below(),
    )
}

/// What can be downloaded of a repo, the smallest first.
pub fn variants_of(files: &Vec<HfFile>) -> (r: Vec<HfVariant>)
    ensures
        ranking::views(r@) == variants_v(ranking::views(files@)),
{
    let whole = keep_whole(files);
    let ghost all = ranking::views(whole@);
    let mut out: Vec<HfVariant> = Vec::new();
    let mut i: usize = 0;
    while i < whole.len()
        invariant
            all == ranking::views(whole@),
            i == out@.len(),
            i <= whole@.len(),
            forall|j: int| 0 <= j < i ==> (#[trigger] out@[j])@ == variant_of(all[j]),
        decreases whole.len() - i,
    {
        let f = &whole[i];
        proof {
            assert(all[i as int] == f@);
        }
        out.push(
            HfVariant {
                filename: text::copy(f.filename.as_str()),
                quant: parse_quant(f.filename.as_str()),
                size_bytes: f.size_bytes,
            },
        );
        i = i + 1;
    }
    proof {
        assert(ranking::views(out@) =~= all.map_values(|f: HfFileV| variant_of(f)));
    }
    ranking::rank::<HfVariant, BySize>(out)
}

// ---- the file to download ------------------------------------------------------------------------

/// The first file from `k` on whose name holds the quantization.
pub open spec fn first_with(pool: Seq<HfFileV>, q: Seq<char>, k: int) -> Option<HfFileV>
    decreases pool.len() - k,
{
    if k < 0 || k >= pool.len() {
        None
    } else if text::contains(text::lowercase(pool[k].filename), q) {
        Some(pool[k])
    } else {
        first_with(pool, q, k + 1)
    }
}

/// The file that a model is downloaded from: one with the quantization that is wanted, else the
/// first; parts of a file only where there is nothing else.
pub open spec fn chosen(files: Seq<HfFileV>, quant: Seq<char>) -> HfFileV {
    let pool = if whole_files(files).len() == 0 {
        files
    } else {
        whole_files(files)
    };
    match first_with(pool, text::lowercase(quant), 0) {
        Some(f) => f,
        None => pool[0],
    }
}

/// Chooses the file that a model is downloaded from.
pub fn choose_gguf(repo: &str, quant_pref: &str, files: &Vec<HfFile>) -> (r: Result<HfFile, String>)
    ensures
        match r {
            Ok(f) => files@.len() > 0 && f@ == chosen(ranking::views(files@), quant_pref@),
            Err(e) => files@.len() == 0 && e@ == "no GGUF files found in '"@ + repo@ + "'"@,
        },
{
    if files.len() == 0 {
        let mut s = text::cat("no GGUF files found in '", repo);
        s.append("'");
        return Err(s);
    }
    let q = text::to_lowercase(quant_pref);
    let whole = keep_whole(files);
    proof {
        assert(ranking::views(whole@).len() == whole@.len());
    }
    let pool = if whole.len() == 0 {
        files
    } else {
        &whole
    };
    let ghost all = ranking::views(pool@);
    let mut k: usize = 0;
    while k < pool.len()
        invariant
            all == ranking::views(pool@),
            pool@.len() > 0,
            k <= pool@.len(),
            q@ == text::lowercase(quant_pref@),
            first_with(all, q@, 0) == first_with(all, q@, k as int),
            all == (if whole_files(ranking::views(files@)).len() == 0 {
                ranking::views(files@)
            } else {
                whole_files(ranking::views(files@))
            }),
            files@.len() > 0,
        decreases pool.len() - k,
    {
        let f = &pool[k];
        proof {
            assert(all[k as int] == f@);
        }
        if text::str_contains(text::to_lowercase(f.filename.as_str()).as_str(), q.as_str()) {
            return Ok(copy_file(f));
        }
        k = k + 1;
    }
    proof {
        assert(all[0] == pool@[0]@);
    }
    Ok(copy_file(&pool[0]))
}

// ---- answers ---------------------------------------------------------------------------------------

/// What came back for a request.
pub enum HubReply<T> {
    Unsent(String),
    /// The status, where it is no success.
    Status(String),
    Unreadable(String),
    Body(T),
}

/// The files of weights that the answer lists, by name, or why there are none to see.
pub open spec fn listed(repo: Seq<char>, reply: HubReply<Vec<TreeItem>>) -> Result<
    Seq<HfFileV>,
    Seq<char>,
> {
    match reply {
        HubReply::Unsent(e) => Err("HF request failed: "@ + e@),
        HubReply::Status(s) => Err(
            "Hugging Face API returned HTTP "@ + s@ + " for repo '"@ + repo + "'"@,
        ),
        HubReply::Unreadable(e) => Err("parse HF tree: "@ + e@),
        HubReply::Body(items) => Ok(
            ranking::ranked(weights_in(ranking::views(items@)), ByFilename::below()),
        ),
    }
}

/// Reads the answer that lists the files of a repo.
pub fn list_gguf_files(repo: &str, reply: HubReply<Vec<TreeItem>>) -> (r: Result<Vec<HfFile>, String>)
    ensures
        match r {
            Ok(v) => listed(repo@, reply) == Ok::<Seq<HfFileV>, Seq<char>>(ranking::views(v@)),
            Err(e) => listed(repo@, reply) == Err::<Seq<HfFileV>, Seq<char>>(e@),
        },
{
    match reply {
        HubReply::Unsent(e) => Err(text::cat("HF request failed: ", e.as_str())),
        HubReply::Status(st) => {
            let mut s = text::cat("Hugging Face API returned HTTP ", st.as_str());
            s.append(" for repo '");
            s.append(repo);
            s.append("'");
            Err(s)
        },
        HubReply::Unreadable(e) => Err(text::cat("parse HF tree: ", e.as_str())),
        HubReply::Body(items) => Ok(gguf_files(&items)),
    }
}

/// Reads from the same answer what can be downloaded of a repo, the smallest first.
pub fn list_variants(repo: &str, reply: HubReply<Vec<TreeItem>>) -> (r: Result<
    Vec<HfVariant>,
    String,
>)
    ensures
        match listed(repo@, reply) {
            Ok(files) => r matches Ok(v) && ranking::views(v@) == variants_v(files),
            Err(e) => r matches Err(x) && x@ == e,
        },
{
    match list_gguf_files(repo, reply) {
        Ok(files) => Ok(variants_of(&files)),
        Err(e) => Err(e),
    }
}

/// Reads from the same answer which file a model is downloaded from.
pub fn resolve_gguf(repo: &str, quant_pref: &str, reply: HubReply<Vec<TreeItem>>) -> (r: Result<
    HfFile,
    String,
>)
    ensures
        match listed(repo@, reply) {
            Ok(files) => if files.len() == 0 {
                r matches Err(x) && x@ == "no GGUF files found in '"@ + repo@ + "'"@
            } else {
                r matches Ok(f) && f@ == chosen(files, quant_pref@)
            },
            Err(e) => r matches Err(x) && x@ == e,
        },
{
    match list_gguf_files(repo, reply) {
        Ok(files) => {
            proof {
                assert(ranking::views(files@).len() == files@.len());
            }
            choose_gguf(repo, quant_pref, &files)
        },
        Err(e) => Err(e),
    }
}

/// How popular a repo is, and whether its files have to be asked for.
#[derive(Debug, PartialEq)]
pub struct HfModelInfo {
    pub downloads: u64,
    pub likes: u64,
    pub gated: bool,
}

/// A repo's files have to be asked for, unless the answer says no or nothing.
pub open spec fn gated_v(v: JsonV) -> bool {
    !(v == JsonV::Bool(false) || v is Null)
}

/// The description of a repo, as it came.
pub struct ModelInfo {
    pub downloads: u64,
    pub likes: u64,
    pub gated: Json,
}

/// Reads the answer that describes a repo.
pub fn model_info(repo: &str, reply: HubReply<ModelInfo>) -> (r: Result<HfModelInfo, String>)
    ensures
        match reply {
            HubReply::Unsent(e) => r matches Err(x) && x@ == "HF info request failed: "@ + e@,
            HubReply::Status(s) => r matches Err(x) && x@ == "HF info HTTP "@ + s@ + " for '"@
                + repo@ + "'"@,
            HubReply::Unreadable(e) => r matches Err(x) && x@ == "parse HF info: "@ + e@,
            HubReply::Body(i) => r == Ok::<HfModelInfo, String>(
                HfModelInfo {
                    downloads: i.downloads,
                    likes: i.likes,
                    gated: gated_v(i.gated@),
                },
            ),
        },
{
    match reply {
        HubReply::Unsent(e) => Err(text::cat("HF info request failed: ", e.as_str())),
        HubReply::Status(st) => {
            let mut s = text::cat("HF info HTTP ", st.as_str());
            s.append(" for '");
            s.append(repo);
            s.append("'");
            Err(s)
        },
        HubReply::Unreadable(e) => Err(text::cat("parse HF info: ", e.as_str())),
        HubReply::Body(i) => {
            let open = match i.gated.as_bool() {
                Some(b) => !b,
                None => false,
            };
            Ok(
                HfModelInfo {
                    downloads: i.downloads,
                    likes: i.likes,
                    gated: !(open || i.gated.is_null()),
                },
            )
        },
    }
}

/// A repo that a search found.
#[derive(Debug, PartialEq)]
pub struct HfModelSummary {
    pub id: String,
    pub downloads: u64,
    pub likes: u64,
}

/// Reads the answer to a search: the repos in the order in which they came.
pub fn search_models(reply: HubReply<Vec<HfModelSummary>>) -> (r: Result<Vec<HfModelSummary>, String>)
    ensures
        match reply {
            HubReply::Unsent(e) => r matches Err(x) && x@ == "HF search failed: "@ + e@,
            HubReply::Status(s) => r matches Err(x) && x@
                == "Hugging Face search returned HTTP "@ + s@,
            HubReply::Unreadable(e) => r matches Err(x) && x@ == "parse HF search: "@ + e@,
            HubReply::Body(items) => r == Ok::<Vec<HfModelSummary>, String>(items),
        },
{
    match reply {
        HubReply::Unsent(e) => Err(text::cat("HF search failed: ", e.as_str())),
        HubReply::Status(s) => Err(text::cat("Hugging Face search returned HTTP ", s.as_str())),
        HubReply::Unreadable(e) => Err(text::cat("parse HF search: ", e.as_str())),
        HubReply::Body(items) => Ok(items),
    }
}

// ---- downloads -----------------------------------------------------------------------------------

/// The size to expect: what the hub says, else what the answer says, else nothing.
pub fn download_total(size_bytes: u64, content_length: Option<u64>) -> (r: u64)
    ensures
        r == (if size_bytes > 0 {
            size_bytes
        } else {
            match content_length {
                Some(n) => n,
                None => 0,
            }
        }),
{
    if size_bytes > 0 {
        size_bytes
    } else {
        match content_length {
            Some(n) => n,
            None => 0,
        }
    }
}

// ---- laws ------------------------------------------------------------------------------------------

/// File names and sizes rank their files, so both lists come in order.
pub proof fn law_listings_are_in_order(items: Seq<TreeItemV>, files: Seq<HfFileV>)
    ensures
        ranking::in_order(
            ranking::ranked(weights_in(items), ByFilename::below()),
            ByFilename::below(),
        ),
        ranking::ranked(weights_in(items), ByFilename::below()).to_multiset() == weights_in(
            items,
        ).to_multiset(),
        ranking::in_order(variants_v(files), BySize::below()),
        variants_v(files).to_multiset() == whole_files(files).map_values(
            |f: HfFileV| variant_of(f),
        ).to_multiset(),
{
    lemma_names_rank();
    ranking::law_ranked(weights_in(items), ByFilename::below());
    ranking::law_ranked(
        whole_files(files).map_values(|f: HfFileV| variant_of(f)),
        BySize::below(),
    );
}

proof fn lemma_names_rank()
    ensures
        ranking::ranks(ByFilename::below()),
{
    let below = ByFilename::below();
    assert forall|a: HfFileV, b: HfFileV| #[trigger] below(a, b) implies !below(b, a) by {
        if below(b, a) {
            order::lemma_lex_transitive(a.filename, b.filename, a.filename);
            order::lemma_lex_irreflexive(a.filename);
        }
    }
    assert forall|a: HfFileV, b: HfFileV, c: HfFileV|
        !(#[trigger] below(b, a)) && !(#[trigger] below(c, b)) implies !below(c, a) by {
        order::lemma_lex_le_transitive(a.filename, b.filename, c.filename);
    }
}

/// A download takes a file with the quantization that is wanted wherever a whole file of the repo
/// has it, and a part of a file only where the repo has nothing else.
pub proof fn law_wanted_quant_wins(files: Seq<HfFileV>, quant: Seq<char>, i: int)
    requires
        0 <= i < whole_files(files).len(),
    ensures
        whole_files(files).contains(chosen(files, quant)),
        text::contains(text::lowercase(whole_files(files)[i].filename), text::lowercase(quant))
            ==> text::contains(
            text::lowercase(chosen(files, quant).filename),
            text::lowercase(quant),
        ),
{
    let pool = whole_files(files);
    lemma_first_with(pool, text::lowercase(quant), 0);
    if first_with(pool, text::lowercase(quant), 0) is None {
        assert(pool[0] == chosen(files, quant));
    }
}

proof fn lemma_first_with(pool: Seq<HfFileV>, q: Seq<char>, k: int)
    requires
        0 <= k <= pool.len(),
    ensures
        match first_with(pool, q, k) {
            Some(f) => pool.contains(f) && text::contains(text::lowercase(f.filename), q),
            None => forall|i: int|
                k <= i < pool.len() ==> !text::contains(
                    text::lowercase((#[trigger] pool[i]).filename),
                    q,
                ),
        },
    decreases pool.len() - k,
{
    if k < pool.len() && !text::contains(text::lowercase(pool[k].filename), q) {
        lemma_first_with(pool, q, k + 1);
    }
}

/// The quantization that is read off a name is the longest that the name holds.
pub proof fn law_longest_quant_wins(lower: Seq<char>, i: int)
    requires
        0 <= i < quants().len(),
        text::contains(lower, quants()[i].0),
        quants()[i].0.len() > 0,
    ensures
        best_quant(lower, quants().len() as int) matches Some(q) && q.0.len()
            >= quants()[i].0.len() && text::contains(lower, q.0) && quant_of(lower) == q.1,
{
    lemma_best(lower, quants().len() as int, i);
}

proof fn lemma_best(lower: Seq<char>, k: int, i: int)
    requires
        0 <= i < k <= quants().len(),
        text::contains(lower, quants()[i].0),
        quants()[i].0.len() > 0,
    ensures
        best_quant(lower, k) matches Some(q) && q.0.len() >= quants()[i].0.len()
            && text::contains(lower, q.0),
    decreases k,
{
    lemma_best_held(lower, k - 1);
    if i < k - 1 {
        lemma_best(lower, k - 1, i);
    }
}

proof fn lemma_best_held(lower: Seq<char>, k: int)
    requires
        k <= quants().len(),
    ensures
        best_quant(lower, k) matches Some(q) ==> text::contains(lower, q.0),
    decreases k,
{
    if k > 0 {
        lemma_best_held(lower, k - 1);
    }
}

pub open spec fn all_slashes(s: Seq<char>) -> bool {
    forall|i: int| 0 <= i < s.len() ==> #[trigger] s[i] == '/'
}

proof fn lemma_no_leading(s: Seq<char>) -> (k: int)
    ensures
        0 <= k <= s.len(),
        no_leading(s) == s.skip(k),
        all_slashes(s.take(k)),
        k < s.len() ==> s[k] != '/',
    decreases s.len(),
{
    if s.len() > 0 && s[0] == '/' {
        let j = lemma_no_leading(s.skip(1));
        assert(s.skip(1).skip(j) =~= s.skip(j + 1));
        assert forall|i: int| 0 <= i < j + 1 implies #[trigger] s.take(j + 1)[i] == '/' by {
            if i > 0 {
                assert(s.skip(1).take(j)[i - 1] == '/');
            }
        }
        if j < s.skip(1).len() {
            assert(s.skip(1)[j] == s[j + 1]);
        }
        j + 1
    } else {
        assert(s.skip(0) =~= s);
        0
    }
}

proof fn lemma_no_trailing(s: Seq<char>) -> (k: int)
    ensures
        0 <= k <= s.len(),
        no_trailing(s) == s.take(k),
        all_slashes(s.skip(k)),
        k > 0 ==> s[k - 1] != '/',
    decreases s.len(),
{
    if s.len() > 0 && s.last() == '/' {
        let j = lemma_no_trailing(s.drop_last());
        assert(s.drop_last().take(j) =~= s.take(j));
        assert forall|i: int| 0 <= i < s.skip(j).len() implies #[trigger] s.skip(j)[i] == '/' by {
            if i < s.skip(j).len() - 1 {
                assert(s.drop_last().skip(j)[i] == '/');
            }
        }
        j
    } else {
        assert(s.take(s.len() as int) =~= s);
        s.len() as int
    }
}

/// Trimming takes slashes off both ends and nothing else.
pub proof fn law_slashes_are_trimmed(s: Seq<char>)
    ensures
        exists|a: Seq<char>, b: Seq<char>|
            all_slashes(a) && all_slashes(b) && s == #[trigger] (a + trimmed(s) + b),
        trimmed(s).len() > 0 ==> trimmed(s)[0] != '/' && trimmed(s).last() != '/',
{
    let k = lemma_no_leading(s);
    let m = no_leading(s);
    let j = lemma_no_trailing(m);
    assert(s =~= s.take(k) + trimmed(s) + m.skip(j));
    if trimmed(s).len() > 0 {
        assert(trimmed(s)[0] == m[0]);
        assert(m[0] == s[k]);
        assert(trimmed(s).last() == m[j - 1]);
    }
}

/// A search asks for the words as they are.
pub proof fn law_search(query: Seq<char>)
    ensures
        query_v(query).len() == 5,
        query_v(query)[0].0 == "search"@ && query_v(query)[0].1 == query,
        query_v(query)[1].0 == "filter"@ && query_v(query)[1].1 == "gguf"@,
        query_v(query)[2].0 == "sort"@ && query_v(query)[2].1 == "downloads"@,
        query_v(query)[3].0 == "direction"@ && query_v(query)[3].1 == "-1"@,
        query_v(query)[4].0 == "limit"@ && query_v(query)[4].1 == "24"@,
{
}

/// A token given wins over that of the environment; an empty one is none.
pub proof fn law_tokens(token: Seq<char>, env: Seq<char>)
    ensures
        token.len() > 0 ==> token_v(Some(token), Some(env)) == Some(token),
        token.len() > 0 ==> token_v(Some(token), None) == Some(token),
        env.len() > 0 ==> token_v(None, Some(env)) == Some(env),
        token_v(Some(Seq::empty()), Some(env)) is None,
        token_v(None, Some(Seq::empty())) is None,
        token_v(None, None) is None,
{
}

/// A file's stored size counts where it is known.
pub proof fn law_sizes(i: TreeItemV)
    ensures
        i.lfs_size matches Some(s) ==> (s > 0 ==> real_size(i) == s),
        i.lfs_size is None || i.lfs_size == Some(0u64) ==> real_size(i) == i.size,
        gated_v(JsonV::Bool(false)) == false,
        gated_v(JsonV::Null) == false,
        gated_v(JsonV::Bool(true)),
        gated_v(JsonV::Text(i.path)),
{
}

/// The files of weights are all files whose name ends like one, in order, each under its path and
/// with its size.
pub proof fn law_weights_are_listed(items: Seq<TreeItemV>)
    ensures
        weights_in(items) == items.filter(
            |i: TreeItemV|
                i.kind == "file"@ && text::ends_with(text::lowercase(i.path), ".gguf"@),
        ).map_values(
            |i: TreeItemV| HfFileV { filename: i.path, size_bytes: real_size(i) },
        ),
    decreases items.len(),
{
    reveal(Seq::filter);
    let is = |i: TreeItemV| i.kind == "file"@ && text::ends_with(text::lowercase(i.path), ".gguf"@);
    let of = |i: TreeItemV| HfFileV { filename: i.path, size_bytes: real_size(i) };
    if items.len() > 0 {
        law_weights_are_listed(items.drop_last());
        let f = items.drop_last().filter(is);
        if holds_weights(items.last()) {
            assert(items.filter(is) =~= f.push(items.last()));
            assert(f.push(items.last()).map_values(of) =~= f.map_values(of).push(of(items.last())));
        } else {
            assert(items.filter(is) =~= f);
        }
    } else {
        assert(items.filter(is).map_values(of) =~= weights_in(items));
    }
}

/// The whole files are those that are not one part of several, in order.
pub proof fn law_whole_files(files: Seq<HfFileV>)
    ensures
        whole_files(files) == files.filter(
            |f: HfFileV| !text::contains(text::lowercase(f.filename), "-of-"@),
        ),
    decreases files.len(),
{
    reveal(Seq::filter);
    let is = |f: HfFileV| !text::contains(text::lowercase(f.filename), "-of-"@);
    if files.len() > 0 {
        law_whole_files(files.drop_last());
        let f = files.drop_last().filter(is);
        if is_part(files.last()) {
            assert(files.filter(is) =~= f);
        } else {
            assert(files.filter(is) =~= f.push(files.last()));
        }
    } else {
        assert(files.filter(is) =~= whole_files(files));
    }
}

/// A variant is its file: its name, its size and the quantization that its name tells.
pub proof fn law_variants(f: HfFileV)
    ensures
        variant_of(f).filename == f.filename,
        variant_of(f).size_bytes == f.size_bytes,
        variant_of(f).quant == quant_of(text::lowercase(f.filename)),
        quants().len() == 25,
        forall|lower: Seq<char>|
            (forall|i: int|
                0 <= i < quants().len() ==> !text::contains(lower, (#[trigger] quants()[i]).0))
                ==> #[trigger] quant_of(lower) == "GGUF"@,
{
    assert forall|lower: Seq<char>|
        (forall|i: int|
            0 <= i < quants().len() ==> !text::contains(
                lower,
                (#[trigger] quants()[i]).0,
            )) implies #[trigger] quant_of(lower) == "GGUF"@ by {
        lemma_no_quant(lower, quants().len() as int);
    }
}

proof fn lemma_no_quant(lower: Seq<char>, k: int)
    requires
        0 <= k <= quants().len(),
        forall|i: int|
            0 <= i < quants().len() ==> !text::contains(lower, (#[trigger] quants()[i]).0),
    ensures
        best_quant(lower, k) is None,
    decreases k,
{
    if k > 0 {
        lemma_no_quant(lower, k - 1);
        assert(!text::contains(lower, quants()[k - 1].0));
    }
}

proof fn lemma_first_is_first(pool: Seq<HfFileV>, q: Seq<char>, k: int, i: int)
    requires
        0 <= k <= i < pool.len(),
        text::contains(text::lowercase(pool[i].filename), q),
        forall|j: int|
            k <= j < i ==> !text::contains(text::lowercase((#[trigger] pool[j]).filename), q),
    ensures
        first_with(pool, q, k) == Some(pool[i]),
    decreases i - k,
{
    if k < i {
        assert(!text::contains(text::lowercase(pool[k].filename), q));
        lemma_first_is_first(pool, q, k + 1, i);
    }
}

/// The file chosen is the first whole one with the quantization that is wanted; where none has it,
/// the first whole one; where there is none whole, the same among the parts.
pub proof fn law_first_fitting_file(files: Seq<HfFileV>, quant: Seq<char>, pool: Seq<HfFileV>, i: int)
    requires
        pool == (if whole_files(files).len() > 0 {
            whole_files(files)
        } else {
            files
        }),
        0 <= i < pool.len(),
    ensures
        text::contains(text::lowercase(pool[i].filename), text::lowercase(quant)) && (forall|j: int|
            0 <= j < i ==> !text::contains(
                text::lowercase((#[trigger] pool[j]).filename),
                text::lowercase(quant),
            )) ==> chosen(files, quant) == pool[i],
        (forall|j: int|
            0 <= j < pool.len() ==> !text::contains(
                text::lowercase((#[trigger] pool[j]).filename),
                text::lowercase(quant),
            )) ==> chosen(files, quant) == pool[0],
{
    let q = text::lowercase(quant);
    if text::contains(text::lowercase(pool[i].filename), q) && (forall|j: int|
        0 <= j < i ==> !text::contains(text::lowercase((#[trigger] pool[j]).filename), q)) {
        lemma_first_is_first(pool, q, 0, i);
    }
    lemma_first_with(pool, q, 0);
    if (forall|j: int|
        0 <= j < pool.len() ==> !text::contains(
            text::lowercase((#[trigger] pool[j]).filename),
            q,
        )) {
        if first_with(pool, q, 0) is Some {
            let f = first_with(pool, q, 0)->0;
            let j = choose|j: int| 0 <= j < pool.len() && pool[j] == f;
            assert(!text::contains(text::lowercase(pool[j].filename), q));
        }
    }
}

proof fn lemma_first_of_several(lower: Seq<char>, k: int, i: int)
    requires
        0 <= i < k <= quants().len(),
        quants()[i].0.len() > 0,
        text::contains(lower, quants()[i].0),
        forall|j: int|
            0 <= j < i && text::contains(lower, (#[trigger] quants()[j]).0) ==> quants()[j].0.len()
                < quants()[i].0.len(),
        forall|j: int|
            i < j < k && text::contains(lower, (#[trigger] quants()[j]).0) ==> quants()[j].0.len()
                <= quants()[i].0.len(),
    ensures
        best_quant(lower, k) == Some(quants()[i]),
    decreases k,
{
    if i == k - 1 {
        lemma_best_within(lower, k - 1);
        if let Some(q) = best_quant(lower, k - 1) {
            let j = choose|j: int|
                0 <= j < k - 1 && #[trigger] quants()[j] == q && text::contains(lower, q.0);
            assert(quants()[j].0.len() < quants()[i].0.len());
        }
    } else {
        lemma_first_of_several(lower, k - 1, i);
        if text::contains(lower, quants()[k - 1].0) {
            assert(quants()[k - 1].0.len() <= quants()[i].0.len());
        }
    }
}

proof fn lemma_best_within(lower: Seq<char>, k: int)
    requires
        0 <= k <= quants().len(),
    ensures
        best_quant(lower, k) matches Some(q) ==> exists|j: int|
            0 <= j < k && #[trigger] quants()[j] == q && text::contains(lower, q.0),
    decreases k,
{
    if k > 0 {
        lemma_best_within(lower, k - 1);
        if text::contains(lower, quants()[k - 1].0) {
            assert(quants()[k - 1] == quants()[k - 1]);
        }
    }
}

/// Of quantizations that are as long, the one that is listed first is read off a name.
pub proof fn law_first_of_the_longest(lower: Seq<char>, i: int)
    requires
        0 <= i < quants().len(),
        quants()[i].0.len() > 0,
        text::contains(lower, quants()[i].0),
        forall|j: int|
            0 <= j < i && text::contains(lower, (#[trigger] quants()[j]).0) ==> quants()[j].0.len()
                < quants()[i].0.len(),
        forall|j: int|
            i < j < quants().len() && text::contains(lower, (#[trigger] quants()[j]).0)
                ==> quants()[j].0.len() <= quants()[i].0.len(),
    ensures
        quant_of(lower) == quants()[i].1,
{
    lemma_first_of_several(lower, quants().len() as int, i);
}

/// A quantization is written in capitals of what file names say.
pub proof fn law_quants_are_written_in_capitals(i: int)
    requires
        0 <= i < quants().len(),
    ensures
        text::ascii_lower(quants()[i].1) == quants()[i].0,
        quants()[i].0.len() >= 3,
{
    assert(i == 0 ==> text::ascii_lower("IQ1_S"@) == "iq1_s"@ && "iq1_s"@.len() >= 3) by {
        reveal_strlit("IQ1_S");
        reveal_strlit("iq1_s");
        assert(text::ascii_lower("IQ1_S"@) =~= "iq1_s"@);
    }
    assert(i == 1 ==> text::ascii_lower("IQ2_XXS"@) == "iq2_xxs"@ && "iq2_xxs"@.len() >= 3) by {
        reveal_strlit("IQ2_XXS");
        reveal_strlit("iq2_xxs");
        assert(text::ascii_lower("IQ2_XXS"@) =~= "iq2_xxs"@);
    }
    assert(i == 2 ==> text::ascii_lower("IQ2_XS"@) == "iq2_xs"@ && "iq2_xs"@.len() >= 3) by {
        reveal_strlit("IQ2_XS");
        reveal_strlit("iq2_xs");
        assert(text::ascii_lower("IQ2_XS"@) =~= "iq2_xs"@);
    }
    assert(i == 3 ==> text::ascii_lower("IQ2_S"@) == "iq2_s"@ && "iq2_s"@.len() >= 3) by {
        reveal_strlit("IQ2_S");
        reveal_strlit("iq2_s");
        assert(text::ascii_lower("IQ2_S"@) =~= "iq2_s"@);
    }
    assert(i == 4 ==> text::ascii_lower("IQ3_XXS"@) == "iq3_xxs"@ && "iq3_xxs"@.len() >= 3) by {
        reveal_strlit("IQ3_XXS");
        reveal_strlit("iq3_xxs");
        assert(text::ascii_lower("IQ3_XXS"@) =~= "iq3_xxs"@);
    }
    assert(i == 5 ==> text::ascii_lower("IQ3_S"@) == "iq3_s"@ && "iq3_s"@.len() >= 3) by {
        reveal_strlit("IQ3_S");
        reveal_strlit("iq3_s");
        assert(text::ascii_lower("IQ3_S"@) =~= "iq3_s"@);
    }
    assert(i == 6 ==> text::ascii_lower("IQ4_XS"@) == "iq4_xs"@ && "iq4_xs"@.len() >= 3) by {
        reveal_strlit("IQ4_XS");
        reveal_strlit("iq4_xs");
        assert(text::ascii_lower("IQ4_XS"@) =~= "iq4_xs"@);
    }
    assert(i == 7 ==> text::ascii_lower("IQ4_NL"@) == "iq4_nl"@ && "iq4_nl"@.len() >= 3) by {
        reveal_strlit("IQ4_NL");
        reveal_strlit("iq4_nl");
        assert(text::ascii_lower("IQ4_NL"@) =~= "iq4_nl"@);
    }
    assert(i == 8 ==> text::ascii_lower("Q2_K"@) == "q2_k"@ && "q2_k"@.len() >= 3) by {
        reveal_strlit("Q2_K");
        reveal_strlit("q2_k");
        assert(text::ascii_lower("Q2_K"@) =~= "q2_k"@);
    }
    assert(i == 9 ==> text::ascii_lower("Q3_K_S"@) == "q3_k_s"@ && "q3_k_s"@.len() >= 3) by {
        reveal_strlit("Q3_K_S");
        reveal_strlit("q3_k_s");
        assert(text::ascii_lower("Q3_K_S"@) =~= "q3_k_s"@);
    }
    assert(i == 10 ==> text::ascii_lower("Q3_K_M"@) == "q3_k_m"@ && "q3_k_m"@.len() >= 3) by {
        reveal_strlit("Q3_K_M");
        reveal_strlit("q3_k_m");
        assert(text::ascii_lower("Q3_K_M"@) =~= "q3_k_m"@);
    }
    assert(i == 11 ==> text::ascii_lower("Q3_K_L"@) == "q3_k_l"@ && "q3_k_l"@.len() >= 3) by {
        reveal_strlit("Q3_K_L");
        reveal_strlit("q3_k_l");
        assert(text::ascii_lower("Q3_K_L"@) =~= "q3_k_l"@);
    }
    assert(i == 12 ==> text::ascii_lower("Q4_K_S"@) == "q4_k_s"@ && "q4_k_s"@.len() >= 3) by {
        reveal_strlit("Q4_K_S");
        reveal_strlit("q4_k_s");
        assert(text::ascii_lower("Q4_K_S"@) =~= "q4_k_s"@);
    }
    assert(i == 13 ==> text::ascii_lower("Q4_K_M"@) == "q4_k_m"@ && "q4_k_m"@.len() >= 3) by {
        reveal_strlit("Q4_K_M");
        reveal_strlit("q4_k_m");
        assert(text::ascii_lower("Q4_K_M"@) =~= "q4_k_m"@);
    }
    assert(i == 14 ==> text::ascii_lower("Q5_K_S"@) == "q5_k_s"@ && "q5_k_s"@.len() >= 3) by {
        reveal_strlit("Q5_K_S");
        reveal_strlit("q5_k_s");
        assert(text::ascii_lower("Q5_K_S"@) =~= "q5_k_s"@);
    }
    assert(i == 15 ==> text::ascii_lower("Q5_K_M"@) == "q5_k_m"@ && "q5_k_m"@.len() >= 3) by {
        reveal_strlit("Q5_K_M");
        reveal_strlit("q5_k_m");
        assert(text::ascii_lower("Q5_K_M"@) =~= "q5_k_m"@);
    }
    assert(i == 16 ==> text::ascii_lower("Q4_0"@) == "q4_0"@ && "q4_0"@.len() >= 3) by {
        reveal_strlit("Q4_0");
        reveal_strlit("q4_0");
        assert(text::ascii_lower("Q4_0"@) =~= "q4_0"@);
    }
    assert(i == 17 ==> text::ascii_lower("Q4_1"@) == "q4_1"@ && "q4_1"@.len() >= 3) by {
        reveal_strlit("Q4_1");
        reveal_strlit("q4_1");
        assert(text::ascii_lower("Q4_1"@) =~= "q4_1"@);
    }
    assert(i == 18 ==> text::ascii_lower("Q5_0"@) == "q5_0"@ && "q5_0"@.len() >= 3) by {
        reveal_strlit("Q5_0");
        reveal_strlit("q5_0");
        assert(text::ascii_lower("Q5_0"@) =~= "q5_0"@);
    }
    assert(i == 19 ==> text::ascii_lower("Q5_1"@) == "q5_1"@ && "q5_1"@.len() >= 3) by {
        reveal_strlit("Q5_1");
        reveal_strlit("q5_1");
        assert(text::ascii_lower("Q5_1"@) =~= "q5_1"@);
    }
    assert(i == 20 ==> text::ascii_lower("Q6_K"@) == "q6_k"@ && "q6_k"@.len() >= 3) by {
        reveal_strlit("Q6_K");
        reveal_strlit("q6_k");
        assert(text::ascii_lower("Q6_K"@) =~= "q6_k"@);
    }
    assert(i == 21 ==> text::ascii_lower("Q8_0"@) == "q8_0"@ && "q8_0"@.len() >= 3) by {
        reveal_strlit("Q8_0");
        reveal_strlit("q8_0");
        assert(text::ascii_lower("Q8_0"@) =~= "q8_0"@);
    }
    assert(i == 22 ==> text::ascii_lower("F16"@) == "f16"@ && "f16"@.len() >= 3) by {
        reveal_strlit("F16");
        reveal_strlit("f16");
        assert(text::ascii_lower("F16"@) =~= "f16"@);
    }
    assert(i == 23 ==> text::ascii_lower("BF16"@) == "bf16"@ && "bf16"@.len() >= 3) by {
        reveal_strlit("BF16");
        reveal_strlit("bf16");
        assert(text::ascii_lower("BF16"@) =~= "bf16"@);
    }
    assert(i == 24 ==> text::ascii_lower("F32"@) == "f32"@ && "f32"@.len() >= 3) by {
        reveal_strlit("F32");
        reveal_strlit("f32");
        assert(text::ascii_lower("F32"@) =~= "f32"@);
    }
}

} // verus!
