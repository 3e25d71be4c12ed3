//! The models that the user can run on this machine: which of them is recommended, what is
//! downloaded, and which one is active.
use vstd::prelude::*;

use crate::catalog;
use crate::catalog::CatalogModel;
use crate::catalog::CatalogModelV;
use crate::hf;
use crate::hf::HfFileV;
use crate::hf::HfModelInfo;
use crate::hf::HfVariant;
use crate::hf::HfVariantV;
use crate::hf::HubReply;
use crate::hf::TreeItem;
use crate::json;
use crate::json::Json;
use crate::json::JsonV;
use crate::ranking;
use crate::ranking::Rank;
use crate::store;
use crate::store::MarkerChange;
use crate::text;

verus! {

pub open spec fn unknown(id: Seq<char>) -> Seq<char> {
    "unknown model: "@ + id
}

/// The optional text is this one.
pub open spec fn is_text(a: Option<&str>, b: Seq<char>) -> bool {
    match a {
        Some(s) => s@ == b,
        None => false,
    }
}

fn same(a: Option<&str>, b: &str) -> (r: bool)
    ensures
        r == is_text(a, b@),
{
    match a {
        Some(s) => text::str_eq(s, b),
        None => false,
    }
}

// ---- the catalog ---------------------------------------------------------------------------------

/// A model of the catalog and what it means on this machine.
pub struct CatalogEntry {
    pub model: CatalogModel,
    /// How strong the model is at coding.
    pub capability: u32,
    /// "comfortable", "good", "slow" or "too_large".
    pub fit: String,
    pub fit_label: String,
    pub downloaded: bool,
    pub active: bool,
    pub recommended: bool,
}

pub struct CatalogEntryV {
    pub model: CatalogModelV,
    pub capability: u32,
    pub fit: Seq<char>,
    pub fit_label: Seq<char>,
    pub downloaded: bool,
    pub active: bool,
    pub recommended: bool,
}

impl View for CatalogEntry {
    type V = CatalogEntryV;

    open spec fn view(&self) -> CatalogEntryV {
        CatalogEntryV {
            model: self.model@,
            capability: self.capability,
            fit: self.fit@,
            fit_label: self.fit_label@,
            downloaded: self.downloaded,
            active: self.active,
            recommended: self.recommended,
        }
    }
}

pub open spec fn fit_rank_v(fit: Seq<char>) -> u8 {
    if fit == "comfortable"@ {
        0
    } else if fit == "good"@ {
        1
    } else if fit == "slow"@ {
        2
    } else {
        3
    }
}

pub fn fit_rank(fit: &str) -> (r: u8)
    ensures
        r == fit_rank_v(fit@),
{
    if text::str_eq(fit, "comfortable") {
        0
    } else if text::str_eq(fit, "good") {
        1
    } else if text::str_eq(fit, "slow") {
        2
    } else {
        3
    }
}

/// Entries rank by how well they fit.
pub struct BestFitFirst;

impl Rank<CatalogEntry> for BestFitFirst {
    open spec fn below() -> spec_fn(CatalogEntryV, CatalogEntryV) -> bool {
        |a: CatalogEntryV, b: CatalogEntryV| fit_rank_v(a.fit) < fit_rank_v(b.fit)
    }

    fn is_below(a: &CatalogEntry, b: &CatalogEntry) -> (r: bool) {
        fit_rank(a.fit.as_str()) < fit_rank(b.fit.as_str())
    }
}

/// An entry before anything is recommended.
pub fn catalog_entry(
    model: CatalogModel,
    capability: u32,
    fit: &str,
    fit_label: &str,
    downloaded: bool,
    active: Option<&str>,
) -> (r: CatalogEntry)
    ensures
        r@ == (CatalogEntryV {
            model: model@,
            capability,
            fit: fit@,
            fit_label: fit_label@,
            downloaded,
            active: is_text(active, model@.id),
            recommended: false,
        }),
{
    let is_active = same(active, model.id.as_str());
    CatalogEntry {
        model,
        capability,
        fit: text::copy(fit),
        fit_label: text::copy(fit_label),
        downloaded,
        active: is_active,
        recommended: false,
    }
}

/// The model fits well.
pub open spec fn fits_well(e: CatalogEntryV) -> bool {
    e.fit == "comfortable"@ || e.fit == "good"@
}

/// The strongest of the first `k` entries that fit well, the last of several.
pub open spec fn strongest(s: Seq<CatalogEntryV>, k: int) -> Option<int>
    decreases k,
{
    if k <= 0 {
        None
    } else {
        let before = strongest(s, k - 1);
        if fits_well(s[k - 1]) && (match before {
            Some(b) => s[b].capability <= s[k - 1].capability,
            None => true,
        }) {
            Some(k - 1)
        } else {
            before
        }
    }
}

/// The best fitting of the first `k` entries, the first of several.
pub open spec fn best_fitting(s: Seq<CatalogEntryV>, k: int) -> Option<int>
    decreases k,
{
    if k <= 0 {
        None
    } else {
        match best_fitting(s, k - 1) {
            Some(b) => if fit_rank_v(s[k - 1].fit) < fit_rank_v(s[b].fit) {
                Some(k - 1)
            } else {
                Some(b)
            },
            None => Some(k - 1),
        }
    }
}

/// The entry that is recommended: the strongest that fits well, else the best fitting.
pub open spec fn pick(s: Seq<CatalogEntryV>) -> Option<int> {
    match strongest(s, s.len() as int) {
        Some(i) => Some(i),
        None => best_fitting(s, s.len() as int),
    }
}

pub open spec fn marked(s: Seq<CatalogEntryV>) -> Seq<CatalogEntryV> {
    match pick(s) {
        Some(b) => s.map_values(
            |e: CatalogEntryV|
                CatalogEntryV { recommended: e.model.id == s[b].model.id, ..e },
        ),
        None => s,
    }
}

proof fn lemma_strongest(s: Seq<CatalogEntryV>, k: int)
    requires
        k <= s.len(),
    ensures
        match strongest(s, k) {
            Some(i) => {
                &&& 0 <= i < k
                &&& fits_well(s[i])
                &&& forall|j: int|
                    0 <= j < k && fits_well(#[trigger] s[j]) ==> s[j].capability <= s[i].capability
            },
            None => forall|j: int| 0 <= j < k ==> !fits_well(#[trigger] s[j]),
        },
    decreases k,
{
    if k > 0 {
        lemma_strongest(s, k - 1);
    }
}

proof fn lemma_best_fitting(s: Seq<CatalogEntryV>, k: int)
    requires
        k <= s.len(),
    ensures
        match best_fitting(s, k) {
            Some(i) => {
                &&& 0 <= i < k
                &&& forall|j: int|
                    0 <= j < k ==> fit_rank_v(s[i].fit) <= fit_rank_v((#[trigger] s[j]).fit)
            },
            None => k <= 0,
        },
    decreases k,
{
    if k > 0 {
        lemma_best_fitting(s, k - 1);
    }
}

fn pick_entry(entries: &Vec<CatalogEntry>) -> (r: Option<usize>)
    ensures
        match r {
            Some(i) => pick(ranking::views(entries@)) == Some(i as int) && i < entries@.len(),
            None => pick(ranking::views(entries@)) is None,
        },
{
    let ghost s = ranking::views(entries@);
    let mut strong: Option<usize> = None;
    let mut fitting: Option<usize> = None;
    let mut k: usize = 0;
    while k < entries.len()
        invariant
            s == ranking::views(entries@),
            k <= entries@.len(),
            match strong {
                Some(i) => strongest(s, k as int) == Some(i as int) && i < k,
                None => strongest(s, k as int) is None,
            },
            match fitting {
                Some(i) => best_fitting(s, k as int) == Some(i as int) && i < k,
                None => best_fitting(s, k as int) is None,
            },
        decreases entries.len() - k,
    {
        let e = &entries[k];
        proof {
            assert(s[k as int] == e@);
        }
        let well = text::str_eq(e.fit.as_str(), "comfortable") || text::str_eq(
            e.fit.as_str(),
            "good",
        );
        if well {
            let stronger = match strong {
                Some(b) => {
                    proof {
                        assert(s[b as int] == entries@[b as int]@);
                    }
                    entries[b].capability <= e.capability
                },
                None => true,
            };
            if stronger {
                strong = Some(k);
            }
        }
        let better = match fitting {
            Some(b) => {
                proof {
                    assert(s[b as int] == entries@[b as int]@);
                }
                fit_rank(e.fit.as_str()) < fit_rank(entries[b].fit.as_str())
            },
            None => true,
        };
        if better {
            fitting = Some(k);
        }
        k = k + 1;
    }
    match strong {
        Some(i) => Some(i),
        None => fitting,
    }
}

fn mark(e: CatalogEntry, best: &str) -> (r: CatalogEntry)
    ensures
        r@ == (CatalogEntryV { recommended: e@.model.id == best@, ..e@ }),
{
    let recommended = text::str_eq(e.model.id.as_str(), best);
    CatalogEntry {
        model: e.model,
        capability: e.capability,
        fit: e.fit,
        fit_label: e.fit_label,
        downloaded: e.downloaded,
        active: e.active,
        recommended,
    }
}

fn mark_all(entries: Vec<CatalogEntry>, best: &str) -> (r: Vec<CatalogEntry>)
    ensures
        ranking::views(r@) == ranking::views(entries@).map_values(
            |e: CatalogEntryV| CatalogEntryV { recommended: e.model.id == best@, ..e },
        ),
{
    let ghost all = ranking::views(entries@);
    let mut rest = entries;
    let mut out: Vec<CatalogEntry> = Vec::new();
    let ghost mut i: int = 0;
    proof {
        assert(ranking::views(rest@) =~= all.skip(0));
    }
    while rest.len() > 0
        invariant
            0 <= i <= all.len(),
            out@.len() == i,
            rest@.len() == all.len() - i,
            ranking::views(rest@) == all.skip(i),
            forall|j: int|
                0 <= j < i ==> (#[trigger] out@[j])@ == (CatalogEntryV {
                    recommended: all[j].model.id == best@,
                    ..all[j]
                }),
        decreases rest.len(),
    {
        let ghost before = rest@;
        let e = rest.remove(0);
        proof {
            assert(ranking::views(before)[0] == e@);
            assert(all[i] == e@);
            assert(ranking::views(rest@) =~= all.skip(i + 1)) by {
                assert forall|j: int| 0 <= j < rest@.len() implies ranking::views(rest@)[j]
                    == all.skip(i + 1)[j] by {
                    assert(rest@[j] == before[j + 1]);
                    assert(ranking::views(before)[j + 1] == all.skip(i)[j + 1]);
                }
            }
            i = i + 1;
        }
        out.push(mark(e, best));
    }
    proof {
        assert(ranking::views(out@) =~= all.map_values(
            |e: CatalogEntryV| CatalogEntryV { recommended: e.model.id == best@, ..e },
        ));
    }
    out
}

/// Recommends one model, and puts the best fitting first.
pub fn local_models_catalog(entries: Vec<CatalogEntry>) -> (r: Vec<CatalogEntry>)
    ensures
        ranking::views(r@) == ranking::ranked(
            marked(ranking::views(entries@)),
            BestFitFirst::below(),
        ),
{
    let ghost s = ranking::views(entries@);
    let shown = match pick_entry(&entries) {
        Some(b) => {
            proof {
                assert(s[b as int] == entries@[b as int]@);
            }
            let best = text::copy(entries[b].model.id.as_str());
            let r = mark_all(entries, best.as_str());
            proof {
                assert(ranking::views(r@) =~= marked(s));
            }
            r
        },
        None => entries,
    };
    ranking::rank::<CatalogEntry, BestFitFirst>(shown)
}

/// Where there is any model, one is recommended: one that fits well and is as strong as any that
/// does; where none fits well, one that fits as well as any.
pub proof fn law_recommendation(s: Seq<CatalogEntryV>)
    requires
        s.len() > 0,
    ensures
        pick(s) matches Some(b) && 0 <= b < s.len() && marked(s)[b].recommended && if exists|j: int|
            0 <= j < s.len() && fits_well(#[trigger] s[j]) {
            fits_well(s[b]) && forall|j: int|
                0 <= j < s.len() && fits_well(#[trigger] s[j]) ==> s[j].capability
                    <= s[b].capability
        } else {
            forall|j: int| 0 <= j < s.len() ==> fit_rank_v(s[b].fit) <= fit_rank_v((#[trigger] s[j]).fit)
        },
{
    lemma_strongest(s, s.len() as int);
    lemma_best_fitting(s, s.len() as int);
}

/// Where the ids differ, exactly one model is recommended.
pub proof fn law_one_recommendation(s: Seq<CatalogEntryV>, i: int)
    requires
        0 <= i < s.len(),
        forall|a: int, b: int|
            0 <= a < b < s.len() ==> (#[trigger] s[a]).model.id != (#[trigger] s[b]).model.id,
    ensures
        marked(s)[i].recommended <==> pick(s) == Some(i),
{
    lemma_strongest(s, s.len() as int);
    lemma_best_fitting(s, s.len() as int);
    let b = pick(s)->Some_0;
    if b < i {
        assert(s[b].model.id != s[i].model.id);
    } else if i < b {
        assert(s[i].model.id != s[b].model.id);
    }
}

/// The catalog is shown with the best fitting first, and shows every entry.
pub proof fn law_catalog_in_order(s: Seq<CatalogEntryV>)
    ensures
        ranking::in_order(
            ranking::ranked(marked(s), BestFitFirst::below()),
            BestFitFirst::below(),
        ),
        ranking::ranked(marked(s), BestFitFirst::below()).to_multiset() == marked(
            s,
        ).to_multiset(),
{
    ranking::law_ranked(marked(s), BestFitFirst::below());
}

// ---- what is downloaded ----------------------------------------------------------------------------

#[derive(Debug, PartialEq)]
pub struct DownloadedModel {
    pub id: String,
    pub name: String,
    pub file: String,
    pub size_bytes: u64,
    pub path: String,
    pub active: bool,
}

pub struct DownloadedV {
    pub id: Seq<char>,
    pub name: Seq<char>,
    pub file: Seq<char>,
    pub size_bytes: u64,
    pub path: Seq<char>,
    pub active: bool,
}

impl View for DownloadedModel {
    type V = DownloadedV;

    open spec fn view(&self) -> DownloadedV {
        DownloadedV {
            id: self.id@,
            name: self.name@,
            file: self.file@,
            size_bytes: self.size_bytes,
            path: self.path@,
            active: self.active,
        }
    }
}

/// Weights on the disk.
pub struct FileOnDisk {
    pub id: String,
    pub file: String,
    pub size_bytes: u64,
    pub path: String,
}

pub struct FileOnDiskV {
    pub id: Seq<char>,
    pub file: Seq<char>,
    pub size_bytes: u64,
    pub path: Seq<char>,
}

impl View for FileOnDisk {
    type V = FileOnDiskV;

    open spec fn view(&self) -> FileOnDiskV {
        FileOnDiskV {
            id: self.id@,
            file: self.file@,
            size_bytes: self.size_bytes,
            path: self.path@,
        }
    }
}

/// The first file from `k` on that belongs to the model.
pub open spec fn file_of(files: Seq<FileOnDiskV>, id: Seq<char>, k: int) -> Option<FileOnDiskV>
    decreases files.len() - k,
{
    if k < 0 || k >= files.len() {
        None
    } else if files[k].id == id {
        Some(files[k])
    } else {
        file_of(files, id, k + 1)
    }
}

/// The first `k` models of the catalog, as far as they are downloaded.
pub open spec fn downloaded_v(files: Seq<FileOnDiskV>, active: Option<&str>, k: int) -> Seq<
    DownloadedV,
>
    decreases k,
{
    if k <= 0 {
        seq![]
    } else {
        let m = catalog::models()[k - 1];
        match file_of(files, m.id, 0) {
            Some(f) => downloaded_v(files, active, k - 1).push(
                DownloadedV {
                    id: m.id,
                    name: m.name,
                    file: f.file,
                    size_bytes: f.size_bytes,
                    path: f.path,
                    active: is_text(active, m.id),
                },
            ),
            None => downloaded_v(files, active, k - 1),
        }
    }
}

fn find_file(files: &Vec<FileOnDisk>, id: &str) -> (r: Option<usize>)
    ensures
        match r {
            Some(i) => i < files@.len() && file_of(ranking::views(files@), id@, 0) == Some(
                files@[i as int]@,
            ),
            None => file_of(ranking::views(files@), id@, 0) is None,
        },
{
    let ghost all = ranking::views(files@);
    let mut k: usize = 0;
    while k < files.len()
        invariant
            all == ranking::views(files@),
            k <= files@.len(),
            file_of(all, id@, 0) == file_of(all, id@, k as int),
        decreases files.len() - k,
    {
        proof {
            assert(all[k as int] == files@[k as int]@);
        }
        if text::str_eq(files[k].id.as_str(), id) {
            return Some(k);
        }
        k = k + 1;
    }
    None
}

/// The models of the catalog that are downloaded, in the order of the catalog.
pub fn local_models_list(active: Option<&str>, files: &Vec<FileOnDisk>) -> (r: Vec<DownloadedModel>)
    ensures
        ranking::views(r@) == downloaded_v(
            ranking::views(files@),
            active,
            catalog::models().len() as int,
        ),
{
    let models = catalog::all();
    let ghost all = ranking::views(files@);
    let ghost known = ranking::views(models@);
    let mut out: Vec<DownloadedModel> = Vec::new();
    let mut k: usize = 0;
    proof {
        assert(ranking::views(out@) =~= downloaded_v(all, active, 0));
    }
    while k < models.len()
        invariant
            all == ranking::views(files@),
            known == ranking::views(models@),
            known == catalog::models(),
            k <= models@.len(),
            ranking::views(out@) == downloaded_v(all, active, k as int),
        decreases models.len() - k,
    {
        let m = &models[k];
        proof {
            assert(known[k as int] == m@);
        }
        let ghost before = out@;
        if let Some(i) = find_file(files, m.id.as_str()) {
            let f = &files[i];
            let d = DownloadedModel {
                id: text::copy(m.id.as_str()),
                name: text::copy(m.name.as_str()),
                file: text::copy(f.file.as_str()),
                size_bytes: f.size_bytes,
                path: text::copy(f.path.as_str()),
                active: same(active, m.id.as_str()),
            };
            let ghost seen = d@;
            out.push(d);
            proof {
                assert(ranking::views(out@) =~= ranking::views(before).push(seen));
            }
        }
        k = k + 1;
    }
    proof {
        assert(known.len() == models@.len());
    }
    out
}

// ---- what the hub says of a model --------------------------------------------------------------------

/// The file that a model is downloaded from.
#[derive(Debug, PartialEq)]
pub struct ResolvedModel {
    pub id: String,
    pub repo: String,
    pub filename: String,
    pub size_bytes: u64,
}

pub struct ResolvedV {
    pub id: Seq<char>,
    pub repo: Seq<char>,
    pub filename: Seq<char>,
    pub size_bytes: u64,
}

impl View for ResolvedModel {
    type V = ResolvedV;

    open spec fn view(&self) -> ResolvedV {
        ResolvedV {
            id: self.id@,
            repo: self.repo@,
            filename: self.filename@,
            size_bytes: self.size_bytes,
        }
    }
}

/// What is known of a model of the catalog, given the files of its repo.
pub open spec fn resolved(id: Seq<char>, files: Result<Seq<HfFileV>, Seq<char>>) -> Result<
    ResolvedV,
    Seq<char>,
> {
    match catalog::found(id) {
        None => Err(unknown(id)),
        Some(m) => match files {
            Err(e) => Err(e),
            Ok(f) => if f.len() == 0 {
                Err("no GGUF files found in '"@ + m.hf_repo + "'"@)
            } else {
                Ok(
                    ResolvedV {
                        id: m.id,
                        repo: m.hf_repo,
                        filename: hf::chosen(f, m.quant).filename,
                        size_bytes: hf::chosen(f, m.quant).size_bytes,
                    },
                )
            },
        },
    }
}

pub open spec fn repo_of(id: Seq<char>) -> Seq<char> {
    match catalog::found(id) {
        Some(m) => m.hf_repo,
        None => seq![],
    }
}

/// Resolves the exact file and size of a model, from the answer that lists its repo.
pub fn local_model_resolve(id: &str, reply: HubReply<Vec<TreeItem>>) -> (r: Result<
    ResolvedModel,
    String,
>)
    ensures
        match resolved(id@, hf::listed(repo_of(id@), reply)) {
            Ok(v) => r matches Ok(m) && m@ == v,
            Err(e) => r matches Err(x) && x@ == e,
        },
{
    let model = match catalog::find(id) {
        Some(m) => m,
        None => {
            return Err(text::cat("unknown model: ", id));
        },
    };
    match hf::resolve_gguf(model.hf_repo.as_str(), model.quant.as_str(), reply) {
        Ok(f) => Ok(
            ResolvedModel {
                id: model.id,
                repo: model.hf_repo,
                filename: f.filename,
                size_bytes: f.size_bytes,
            },
        ),
        Err(e) => Err(e),
    }
}

/// A file of a model and how well it fits.
#[derive(Debug, PartialEq)]
pub struct VariantFit {
    pub filename: String,
    pub quant: String,
    pub size_bytes: u64,
    pub fit: String,
    pub fit_label: String,
    /// It has the quantization that the catalog recommends.
    pub recommended: bool,
}

pub struct VariantFitV {
    pub filename: Seq<char>,
    pub quant: Seq<char>,
    pub size_bytes: u64,
    pub fit: Seq<char>,
    pub fit_label: Seq<char>,
    pub recommended: bool,
}

impl View for VariantFit {
    type V = VariantFitV;

    open spec fn view(&self) -> VariantFitV {
        VariantFitV {
            filename: self.filename@,
            quant: self.quant@,
            size_bytes: self.size_bytes,
            fit: self.fit@,
            fit_label: self.fit_label@,
            recommended: self.recommended,
        }
    }
}

/// What the hub says of a model: how popular it is and what can be downloaded.
#[derive(Debug, PartialEq)]
pub struct ModelVariants {
    pub id: String,
    pub repo: String,
    pub downloads: u64,
    pub likes: u64,
    pub gated: bool,
    pub variants: Vec<VariantFit>,
}

pub open spec fn variant_fit(
    v: HfVariantV,
    fit: (Seq<char>, Seq<char>),
    wanted: Seq<char>,
) -> VariantFitV {
    VariantFitV {
        filename: v.filename,
        quant: v.quant,
        size_bytes: v.size_bytes,
        fit: fit.0,
        fit_label: fit.1,
        recommended: text::lowercase(v.quant) == text::lowercase(wanted),
    }
}

/// The description of a repo counts as empty where there is none.
pub open spec fn info_or_none(info: Result<HfModelInfo, String>) -> HfModelInfo {
    match info {
        Ok(i) => i,
        Err(_) => HfModelInfo { downloads: 0, likes: 0, gated: false },
    }
}

/// Puts together what the hub says of a model of the catalog. `fits` tells of each variant how
/// well it fits this machine.
pub fn local_model_variants(
    model: &CatalogModel,
    info: Result<HfModelInfo, String>,
    variants: &Vec<HfVariant>,
    fits: &Vec<(String, String)>,
) -> (r: ModelVariants)
    requires
        fits@.len() == variants@.len(),
    ensures
        r.id@ == model@.id,
        r.repo@ == model@.hf_repo,
        r.downloads == info_or_none(info).downloads,
        r.likes == info_or_none(info).likes,
        r.gated == info_or_none(info).gated,
        r.variants@.len() == variants@.len(),
        forall|i: int|
            0 <= i < variants@.len() ==> (#[trigger] r.variants@[i])@ == variant_fit(
                variants@[i]@,
                (fits@[i].0@, fits@[i].1@),
                model@.quant,
            ),
{
    let info = match info {
        Ok(i) => i,
        Err(_) => HfModelInfo { downloads: 0, likes: 0, gated: false },
    };
    let wanted = text::to_lowercase(model.quant.as_str());
    let mut out: Vec<VariantFit> = Vec::new();
    let mut i: usize = 0;
    while i < variants.len()
        invariant
            fits@.len() == variants@.len(),
            wanted@ == text::lowercase(model@.quant),
            i == out@.len(),
            i <= variants@.len(),
            forall|j: int|
                0 <= j < i ==> (#[trigger] out@[j])@ == variant_fit(
                    variants@[j]@,
                    (fits@[j].0@, fits@[j].1@),
                    model@.quant,
                ),
        decreases variants.len() - i,
    {
        let v = &variants[i];
        out.push(
            VariantFit {
                filename: text::copy(v.filename.as_str()),
                quant: text::copy(v.quant.as_str()),
                size_bytes: v.size_bytes,
                fit: text::copy(fits[i].0.as_str()),
                fit_label: text::copy(fits[i].1.as_str()),
                recommended: text::str_eq(
                    text::to_lowercase(v.quant.as_str()).as_str(),
                    wanted.as_str(),
                ),
            },
        );
        i = i + 1;
    }
    ModelVariants {
        id: text::copy(model.id.as_str()),
        repo: text::copy(model.hf_repo.as_str()),
        downloads: info.downloads,
        likes: info.likes,
        gated: info.gated,
        variants: out,
    }
}

// ---- choosing and removing -----------------------------------------------------------------------------

/// The model that is to be downloaded.
pub fn local_model_download(id: &str) -> (r: Result<CatalogModel, String>)
    ensures
        match catalog::found(id@) {
            Some(m) => r matches Ok(x) && x@ == m,
            None => r matches Err(e) && e@ == unknown(id@),
        },
{
    match catalog::find(id) {
        Some(m) => Ok(m),
        None => Err(text::cat("unknown model: ", id)),
    }
}

/// What deleting a model takes.
#[derive(Debug, PartialEq)]
pub struct Removal {
    /// Its folder is removed.
    pub folder: bool,
    /// It was the active model: none is any more.
    pub marker: Option<MarkerChange>,
}

/// Deletes a model, given whether its folder is there and which model is active.
pub fn local_model_delete(id: &str, folder_exists: bool, active: Option<&str>) -> (r: Result<
    Removal,
    String,
>)
    ensures
        match catalog::found(id@) {
            None => r matches Err(e) && e@ == unknown(id@),
            Some(_) => r matches Ok(p) && p.folder == folder_exists && (if is_text(active, id@) {
                p.marker == Some(MarkerChange::Remove)
            } else {
                p.marker is None
            }),
        },
{
    if catalog::find(id).is_none() {
        return Err(text::cat("unknown model: ", id));
    }
    let marker = if same(active, id) {
        Some(store::write_active(None))
    } else {
        None
    };
    Ok(Removal { folder: folder_exists, marker })
}

/// Makes a downloaded model the active one.
pub fn local_model_set_active(id: &str, is_downloaded: bool) -> (r: Result<MarkerChange, String>)
    ensures
        if catalog::found(id@) is None {
            r matches Err(e) && e@ == unknown(id@)
        } else if !is_downloaded {
            r matches Err(e) && e@ == "model '"@ + id@ + "' is not downloaded yet"@
        } else {
            r matches Ok(MarkerChange::Write(body)) && body@ == json::printed(
                store::marker_v(id@),
            ) && store::active_in_v(json::parsed(body@)) == Some(id@)
        },
{
    if catalog::find(id).is_none() {
        return Err(text::cat("unknown model: ", id));
    }
    if !is_downloaded {
        let mut s = text::cat("model '", id);
        s.append("' is not downloaded yet");
        return Err(s);
    }
    Ok(store::write_active(Some(id)))
}

// ---- the engine ----------------------------------------------------------------------------------------

pub open spec fn text_or_null(s: Option<&str>) -> JsonV {
    match s {
        Some(x) => JsonV::Text(x@),
        None => JsonV::Null,
    }
}

fn opt_json(s: Option<&str>) -> (r: Json)
    ensures
        r@ == text_or_null(s),
{
    match s {
        Some(x) => Json::string(x),
        None => Json::Null,
    }
}

/// What is told of the engine: its backend, the model that it holds and the one that is active.
pub fn local_engine_status(macos: bool, loaded: Option<&str>, active: Option<&str>) -> (r: Json)
    ensures
        r@ == JsonV::Object(
            json::no_members().insert(
                "backend"@,
                JsonV::Text(
                    if macos {
                        "llama.cpp (Metal)"@
                    } else {
                        "llama.cpp (CPU)"@
                    },
                ),
            ).insert("loaded"@, text_or_null(loaded)).insert("active"@, text_or_null(active)),
        ),
{
    let backend = if macos {
        "llama.cpp (Metal)"
    } else {
        "llama.cpp (CPU)"
    };
    Json::object().with_str("backend", backend).with("loaded", opt_json(loaded)).with(
        "active",
        opt_json(active),
    )
}

/// The window to ask for when a model is loaded to complete a prompt.
pub open spec fn window_for(id: Seq<char>) -> u32 {
    let context = match catalog::found(id) {
        Some(m) => m.context,
        None => 4096,
    };
    if context <= 8192 {
        context
    } else {
        8192
    }
}

/// What has to be loaded before a prompt is completed: a model and its window, or nothing.
pub fn local_engine_generate(active: Option<&str>, loaded: Option<&str>, has_file: bool) -> (r:
    Result<Option<(String, u32)>, String>)
    ensures
        match active {
            None => r matches Err(e) && e@ == "no active local model set"@,
            Some(a) => if is_text(loaded, a@) {
                r == Ok::<Option<(String, u32)>, String>(None)
            } else if !has_file {
                r matches Err(e) && e@ == "active model '"@ + a@ + "' is not downloaded"@
            } else {
                r matches Ok(Some((id, n))) && id@ == a@ && n == window_for(a@)
            },
        },
{
    let a = match active {
        Some(a) => a,
        None => {
            return Err(text::copy("no active local model set"));
        },
    };
    if same(loaded, a) {
        return Ok(None);
    }
    if !has_file {
        let mut s = text::cat("active model '", a);
        s.append("' is not downloaded");
        return Err(s);
    }
    let context = match catalog::find(a) {
        Some(m) => m.context,
        None => 4096,
    };
    let n = if context <= 8192 {
        context
    } else {
        8192
    };
    Ok(Some((text::copy(a), n)))
}

/// The tokens that a completion may take, where none are asked for.
pub fn completion_limit(max_tokens: Option<i32>) -> (r: i32)
    ensures
        r == (match max_tokens {
            Some(n) => n,
            None => 256,
        }),
{
    match max_tokens {
        Some(n) => n,
        None => 256,
    }
}

// ---- laws ------------------------------------------------------------------------------------------------

/// How well a model fits, from the best to the worst.
pub proof fn law_fits(fit: Seq<char>, e: CatalogEntryV)
    ensures
        fit_rank_v("comfortable"@) < fit_rank_v("good"@) < fit_rank_v("slow"@),
        fit != "comfortable"@ && fit != "good"@ && fit != "slow"@ ==> fit_rank_v("slow"@)
            < fit_rank_v(fit),
        fits_well(e) <==> fit_rank_v(e.fit) < fit_rank_v("slow"@),
{
    reveal_strlit("comfortable");
    reveal_strlit("good");
    reveal_strlit("slow");
    assert("comfortable"@.len() == 11
        && "good"@.len() == 4
        && "slow"@.len() == 4
        && "good"@[0] == 'g'
        && "slow"@[0] == 's');
}

proof fn lemma_ties(s: Seq<CatalogEntryV>, k: int)
    requires
        k <= s.len(),
    ensures
        strongest(s, k) matches Some(b) ==> forall|j: int|
            b < j < k && fits_well(#[trigger] s[j]) ==> s[j].capability < s[b].capability,
        best_fitting(s, k) matches Some(b) ==> 0 <= b < k && forall|j: int|
            0 <= j < b ==> fit_rank_v(s[b].fit) < fit_rank_v((#[trigger] s[j]).fit),
    decreases k,
{
    if k > 0 {
        lemma_ties(s, k - 1);
        lemma_strongest(s, k - 1);
        lemma_best_fitting(s, k - 1);
    }
}

/// Of models that are as strong the last one is recommended, and of models that fit as well the
/// first; marking changes nothing else of any entry.
pub proof fn law_marking(s: Seq<CatalogEntryV>, i: int)
    requires
        0 <= i < s.len(),
    ensures
        strongest(s, s.len() as int) matches Some(b) ==> pick(s) == Some(b) && forall|j: int|
            b < j < s.len() && fits_well(#[trigger] s[j]) ==> s[j].capability < s[b].capability,
        strongest(s, s.len() as int) is None ==> (pick(s) matches Some(b) && forall|j: int|
            0 <= j < b ==> fit_rank_v(s[b].fit) < fit_rank_v((#[trigger] s[j]).fit)),
        marked(s).len() == s.len(),
        marked(s)[i].model == s[i].model,
        marked(s)[i].capability == s[i].capability,
        marked(s)[i].fit == s[i].fit,
        marked(s)[i].fit_label == s[i].fit_label,
        marked(s)[i].downloaded == s[i].downloaded,
        marked(s)[i].active == s[i].active,
{
    lemma_ties(s, s.len() as int);
    lemma_strongest(s, s.len() as int);
    lemma_best_fitting(s, s.len() as int);
}

proof fn lemma_file_of(files: Seq<FileOnDiskV>, id: Seq<char>, k: int)
    requires
        0 <= k <= files.len(),
    ensures
        match file_of(files, id, k) {
            Some(f) => exists|i: int|
                k <= i < files.len() && #[trigger] files[i] == f && f.id == id && forall|j: int|
                    k <= j < i ==> (#[trigger] files[j]).id != id,
            None => forall|i: int| k <= i < files.len() ==> (#[trigger] files[i]).id != id,
        },
    decreases files.len() - k,
{
    if k < files.len() {
        if files[k].id == id {
            assert(files[k] == file_of(files, id, k)->0);
        } else {
            lemma_file_of(files, id, k + 1);
            if file_of(files, id, k) is Some {
                let f = file_of(files, id, k)->0;
                let i = choose|i: int|
                    k + 1 <= i < files.len() && #[trigger] files[i] == f && f.id == id && forall|
                        j: int,
                    |
                        k + 1 <= j < i ==> (#[trigger] files[j]).id != id;
                assert(files[i] == f);
            }
        }
    }
}

proof fn lemma_downloaded(files: Seq<FileOnDiskV>, active: Option<&str>, k: int, i: int)
    requires
        0 <= i < k <= catalog::models().len(),
    ensures
        file_of(files, catalog::models()[i].id, 0) matches Some(f) ==> exists|n: int|
            0 <= n < downloaded_v(files, active, k).len() && ({
                let d = #[trigger] downloaded_v(files, active, k)[n];
                d.id == catalog::models()[i].id && d.name == catalog::models()[i].name && d.file
                    == f.file && d.size_bytes == f.size_bytes && d.path == f.path && d.active
                    == is_text(active, d.id)
            }),
    decreases k,
{
    let now = downloaded_v(files, active, k);
    let before = downloaded_v(files, active, k - 1);
    if let Some(f) = file_of(files, catalog::models()[i].id, 0) {
        if i == k - 1 {
            let n = before.len() as int;
            assert(now[n].id == catalog::models()[i].id);
        } else {
            lemma_downloaded(files, active, k - 1, i);
            let n = choose|n: int|
                0 <= n < before.len() && ({
                    let d = #[trigger] before[n];
                    d.id == catalog::models()[i].id && d.name == catalog::models()[i].name
                        && d.file == f.file && d.size_bytes == f.size_bytes && d.path == f.path
                        && d.active == is_text(active, d.id)
                });
            assert(now[n] == before[n]);
        }
    }
}

proof fn lemma_only_downloaded(files: Seq<FileOnDiskV>, active: Option<&str>, k: int, n: int)
    requires
        0 <= k <= catalog::models().len(),
        0 <= n < downloaded_v(files, active, k).len(),
    ensures
        downloaded_v(files, active, k).len() <= k,
        exists|i: int|
            0 <= i < k && (#[trigger] catalog::models()[i]).id == downloaded_v(files, active, k)[n].id
                && file_of(files, catalog::models()[i].id, 0) is Some,
    decreases k,
{
    if k > 0 {
        let before = downloaded_v(files, active, k - 1);
        if n < before.len() {
            lemma_only_downloaded(files, active, k - 1, n);
            let i = choose|i: int|
                0 <= i < k - 1 && (#[trigger] catalog::models()[i]).id == before[n].id && file_of(
                    files,
                    catalog::models()[i].id,
                    0,
                ) is Some;
            assert(catalog::models()[i].id == before[n].id);
        } else {
            if before.len() > 0 {
                lemma_only_downloaded(files, active, k - 1, 0);
            }
            assert(catalog::models()[k - 1].id == downloaded_v(files, active, k)[n].id);
        }
    }
}

/// Every model of the catalog whose weights are on the disk is listed, with the first of its files;
/// nothing else is; and the active one says so.
pub proof fn law_downloads_are_listed(files: Seq<FileOnDiskV>, active: Option<&str>, i: int, n: int)
    requires
        0 <= i < catalog::models().len(),
    ensures
        ({
            let r = downloaded_v(files, active, catalog::models().len() as int);
            let m = catalog::models()[i];
            &&& file_of(files, m.id, 0) matches Some(f) ==> exists|k: int|
                0 <= k < r.len() && ({
                    let d = #[trigger] r[k];
                    d.id == m.id && d.name == m.name && d.file == f.file && d.size_bytes
                        == f.size_bytes && d.path == f.path && d.active == is_text(active, d.id)
                })
            &&& 0 <= n < r.len() ==> exists|k: int|
                0 <= k < files.len() && (#[trigger] files[k]).id == r[n].id
            &&& file_of(files, m.id, 0) matches Some(f) ==> exists|k: int|
                0 <= k < files.len() && #[trigger] files[k] == f && f.id == m.id && forall|j: int|
                    0 <= j < k ==> (#[trigger] files[j]).id != m.id
            &&& file_of(files, m.id, 0) is None ==> forall|j: int|
                0 <= j < files.len() ==> (#[trigger] files[j]).id != m.id
        }),
{
    let all = catalog::models().len() as int;
    let r = downloaded_v(files, active, all);
    lemma_downloaded(files, active, all, i);
    lemma_file_of(files, catalog::models()[i].id, 0);
    if 0 <= n < r.len() {
        lemma_only_downloaded(files, active, all, n);
        let k = choose|k: int|
            0 <= k < all && (#[trigger] catalog::models()[k]).id == r[n].id && file_of(
                files,
                catalog::models()[k].id,
                0,
            ) is Some;
        lemma_file_of(files, catalog::models()[k].id, 0);
    }
}

/// A model is resolved to the file that is chosen of its own repo; an unknown model and an empty
/// repo are refused by name.
pub proof fn law_resolved(id: Seq<char>, files: Seq<HfFileV>, m: CatalogModelV, e: Seq<char>)
    ensures
        catalog::found(id) is None ==> resolved(id, Ok(files)) == Err::<ResolvedV, Seq<char>>(
            "unknown model: "@ + id,
        ),
        catalog::found(id) == Some(m) && files.len() == 0 ==> resolved(id, Ok(files)) == Err::<
            ResolvedV,
            Seq<char>,
        >("no GGUF files found in '"@ + m.hf_repo + "'"@),
        catalog::found(id) == Some(m) ==> resolved(id, Err(e)) == Err::<ResolvedV, Seq<char>>(e),
        catalog::found(id) == Some(m) && files.len() > 0 ==> (resolved(id, Ok(files)) matches Ok(r)
            && r.id == m.id && r.repo == m.hf_repo && r.filename == hf::chosen(
            files,
            m.quant,
        ).filename && r.size_bytes == hf::chosen(files, m.quant).size_bytes),
        catalog::found(id) == Some(m) ==> repo_of(id) == m.hf_repo,
        catalog::found(id) == Some(m) && m.context <= 8192 ==> window_for(id) == m.context,
        catalog::found(id) == Some(m) && m.context > 8192 ==> window_for(id) == 8192,
        catalog::found(id) is None ==> window_for(id) == 4096,
{
}

/// A variant keeps what the hub says of it and gets its own fit; it is recommended where it is the
/// quantization that the catalog wants, however that is spelled.
pub proof fn law_variant_fits(v: HfVariantV, fit: Seq<char>, label: Seq<char>, wanted: Seq<char>)
    ensures
        variant_fit(v, (fit, label), wanted).filename == v.filename,
        variant_fit(v, (fit, label), wanted).quant == v.quant,
        variant_fit(v, (fit, label), wanted).size_bytes == v.size_bytes,
        variant_fit(v, (fit, label), wanted).fit == fit,
        variant_fit(v, (fit, label), wanted).fit_label == label,
        variant_fit(v, (fit, label), wanted).recommended <==> text::lowercase(v.quant)
            == text::lowercase(wanted),
{
}

/// What the hub says of a repo is kept; where it says nothing, the repo counts as free and unknown.
pub proof fn law_infos(i: HfModelInfo, e: String, s: &str)
    ensures
        info_or_none(Ok(i)) == i,
        info_or_none(Err(e)).downloads == 0,
        info_or_none(Err(e)).likes == 0,
        info_or_none(Err(e)).gated == false,
        text_or_null(Some(s)) == JsonV::Text(s@),
        text_or_null(None) == JsonV::Null,
{
}

} // verus!
