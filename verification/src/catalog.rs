//! The curated catalog of local coding models.
use vstd::prelude::*;

use crate::ranking;
use crate::text;

verus! {

/// A model of the catalog. Sizes are in tenths.
#[derive(Debug, PartialEq)]
pub struct CatalogModel {
    pub id: String,
    pub name: String,
    /// The repo that holds the weights.
    pub hf_repo: String,
    pub file: String,
    /// Billions of parameters, in tenths.
    pub params_tenths: u32,
    /// Roughly the gigabytes of the weights, in tenths.
    pub size_tenths: u32,
    pub quant: String,
    /// The gigabytes of memory that it should be run with, in tenths.
    pub min_ram_tenths: u32,
    pub context: u32,
    /// "reasoning", "agentic", "autocomplete" or "general".
    pub role: String,
    pub swe_note: String,
}

pub struct CatalogModelV {
    pub id: Seq<char>,
    pub name: Seq<char>,
    pub hf_repo: Seq<char>,
    pub file: Seq<char>,
    pub params_tenths: u32,
    pub size_tenths: u32,
    pub quant: Seq<char>,
    pub min_ram_tenths: u32,
    pub context: u32,
    pub role: Seq<char>,
    pub swe_note: Seq<char>,
}

impl View for CatalogModel {
    type V = CatalogModelV;

    open spec fn view(&self) -> CatalogModelV {
        CatalogModelV {
            id: self.id@,
            name: self.name@,
            hf_repo: self.hf_repo@,
            file: self.file@,
            params_tenths: self.params_tenths,
            size_tenths: self.size_tenths,
            quant: self.quant@,
            min_ram_tenths: self.min_ram_tenths,
            context: self.context,
            role: self.role@,
            swe_note: self.swe_note@,
        }
    }
}

pub open spec fn entry(
    id: Seq<char>,
    name: Seq<char>,
    hf_repo: Seq<char>,
    file: Seq<char>,
    params_tenths: u32,
    size_tenths: u32,
    quant: Seq<char>,
    min_ram_tenths: u32,
    context: u32,
    role: Seq<char>,
    swe_note: Seq<char>,
) -> CatalogModelV {
    CatalogModelV {
        id,
        name,
        hf_repo,
        file,
        params_tenths,
        size_tenths,
        quant,
        min_ram_tenths,
        context,
        role,
        swe_note,
    }
}

/// The catalog, roughly by capability.
pub open spec fn models() -> Seq<CatalogModelV> {
    seq![
        entry(
            "qwen3-coder-30b-a3b"@,
            "Qwen3-Coder 30B-A3B (MoE)"@,
            "Qwen/Qwen3-Coder-30B-A3B-Instruct-GGUF"@,
            "qwen3-coder-30b-a3b-instruct-q4_k_m.gguf"@,
            300,
            170,
            "Q4_K_M"@,
            240,
            32768,
            "agentic"@,
            "Default Mac coding model — 30B memory, ~3B active. Fast + strong."@,
        ),
        entry(
            "devstral-small-2"@,
            "Devstral Small 2 (24B)"@,
            "mistralai/Devstral-Small-2-GGUF"@,
            "devstral-small-2-q4_k_m.gguf"@,
            240,
            140,
            "Q4_K_M"@,
            240,
            32768,
            "agentic"@,
            "Mistral's agentic coding model. ~68% SWE-bench Verified."@,
        ),
        entry(
            "qwen2.5-coder-32b"@,
            "Qwen2.5-Coder 32B"@,
            "Qwen/Qwen2.5-Coder-32B-Instruct-GGUF"@,
            "qwen2.5-coder-32b-instruct-q4_k_m.gguf"@,
            320,
            190,
            "Q4_K_M"@,
            320,
            32768,
            "reasoning"@,
            "Heavy dense reasoning; rivals frontier-cloud on many coding tasks."@,
        ),
        entry(
            "qwen2.5-coder-14b"@,
            "Qwen2.5-Coder 14B"@,
            "Qwen/Qwen2.5-Coder-14B-Instruct-GGUF"@,
            "qwen2.5-coder-14b-instruct-q4_k_m.gguf"@,
            140,
            90,
            "Q4_K_M"@,
            160,
            32768,
            "general"@,
            "Strong mid-tier; good balance of quality and footprint."@,
        ),
        entry(
            "qwen2.5-coder-7b"@,
            "Qwen2.5-Coder 7B"@,
            "Qwen/Qwen2.5-Coder-7B-Instruct-GGUF"@,
            "qwen2.5-coder-7b-instruct-q4_k_m.gguf"@,
            70,
            45,
            "Q4_K_M"@,
            160,
            32768,
            "general"@,
            "Runs almost anywhere; solid general coding for its size."@,
        ),
        entry(
            "qwen2.5-coder-3b"@,
            "Qwen2.5-Coder 3B"@,
            "Qwen/Qwen2.5-Coder-3B-Instruct-GGUF"@,
            "qwen2.5-coder-3b-instruct-q4_k_m.gguf"@,
            30,
            20,
            "Q4_K_M"@,
            80,
            32768,
            "autocomplete"@,
            "Tiny + fast — best for fill-in-middle / autocomplete."@,
        ),
    ]
}

fn make(
    id: &str,
    name: &str,
    repo: &str,
    file: &str,
    params_tenths: u32,
    size_tenths: u32,
    quant: &str,
    min_ram_tenths: u32,
    context: u32,
    role: &str,
    swe_note: &str,
) -> (r: CatalogModel)
    ensures
        r@ == entry(
            id@,
            name@,
            repo@,
            file@,
            params_tenths,
            size_tenths,
            quant@,
            min_ram_tenths,
            context,
            role@,
            swe_note@,
        ),
{
    CatalogModel {
        id: text::copy(id),
        name: text::copy(name),
        hf_repo: text::copy(repo),
        file: text::copy(file),
        params_tenths,
        size_tenths,
        quant: text::copy(quant),
        min_ram_tenths,
        context,
        role: text::copy(role),
        swe_note: text::copy(swe_note),
    }
}

/// The curated set.
pub fn all() -> (r: Vec<CatalogModel>)
    ensures
        ranking::views(r@) == models(),
{
    let mut v: Vec<CatalogModel> = Vec::new();
    v.push(
        make(
            "qwen3-coder-30b-a3b",
            "Qwen3-Coder 30B-A3B (MoE)",
            "Qwen/Qwen3-Coder-30B-A3B-Instruct-GGUF",
            "qwen3-coder-30b-a3b-instruct-q4_k_m.gguf",
            300,
            170,
            "Q4_K_M",
            240,
            32768,
            "agentic",
            "Default Mac coding model — 30B memory, ~3B active. Fast + strong.",
        ),
    );
    v.push(
        make(
            "devstral-small-2",
            "Devstral Small 2 (24B)",
            "mistralai/Devstral-Small-2-GGUF",
            "devstral-small-2-q4_k_m.gguf",
            240,
            140,
            "Q4_K_M",
            240,
            32768,
            "agentic",
            "Mistral's agentic coding model. ~68% SWE-bench Verified.",
        ),
    );
    v.push(
        make(
            "qwen2.5-coder-32b",
            "Qwen2.5-Coder 32B",
            "Qwen/Qwen2.5-Coder-32B-Instruct-GGUF",
            "qwen2.5-coder-32b-instruct-q4_k_m.gguf",
            320,
            190,
            "Q4_K_M",
            320,
            32768,
            "reasoning",
            "Heavy dense reasoning; rivals frontier-cloud on many coding tasks.",
        ),
    );
    v.push(
        make(
            "qwen2.5-coder-14b",
            "Qwen2.5-Coder 14B",
            "Qwen/Qwen2.5-Coder-14B-Instruct-GGUF",
            "qwen2.5-coder-14b-instruct-q4_k_m.gguf",
            140,
            90,
            "Q4_K_M",
            160,
            32768,
            "general",
            "Strong mid-tier; good balance of quality and footprint.",
        ),
    );
    v.push(
        make(
            "qwen2.5-coder-7b",
            "Qwen2.5-Coder 7B",
            "Qwen/Qwen2.5-Coder-7B-Instruct-GGUF",
            "qwen2.5-coder-7b-instruct-q4_k_m.gguf",
            70,
            45,
            "Q4_K_M",
            160,
            32768,
            "general",
            "Runs almost anywhere; solid general coding for its size.",
        ),
    );
    v.push(
        make(
            "qwen2.5-coder-3b",
            "Qwen2.5-Coder 3B",
            "Qwen/Qwen2.5-Coder-3B-Instruct-GGUF",
            "qwen2.5-coder-3b-instruct-q4_k_m.gguf",
            30,
            20,
            "Q4_K_M",
            80,
            32768,
            "autocomplete",
            "Tiny + fast — best for fill-in-middle / autocomplete.",
        ),
    );
    proof {
        assert(ranking::views(v@) =~= models());
    }
    v
}

/// The first model from `k` on with this id.
pub open spec fn found_from(id: Seq<char>, k: int) -> Option<CatalogModelV>
    decreases models().len() - k,
{
    if k < 0 || k >= models().len() {
        None
    } else if models()[k].id == id {
        Some(models()[k])
    } else {
        found_from(id, k + 1)
    }
}

pub open spec fn found(id: Seq<char>) -> Option<CatalogModelV> {
    found_from(id, 0)
}

/// The model of the catalog with this id.
pub fn find(id: &str) -> (r: Option<CatalogModel>)
    ensures
        match r {
            Some(m) => found(id@) == Some(m@),
            None => found(id@) is None,
        },
{
    let mut rest = all();
    let ghost mut k: int = 0;
    proof {
        assert(ranking::views(rest@) =~= models().skip(0));
    }
    while rest.len() > 0
        invariant
            0 <= k <= models().len(),
            ranking::views(rest@) == models().skip(k),
            rest@.len() == models().len() - k,
            found(id@) == found_from(id@, k),
        decreases rest.len(),
    {
        let ghost before = rest@;
        let m = rest.remove(0);
        proof {
            assert(ranking::views(before)[0] == m@);
            assert(models()[k] == m@);
        }
        if text::str_eq(m.id.as_str(), id) {
            return Some(m);
        }
        proof {
            assert(ranking::views(rest@) =~= models().skip(k + 1)) by {
                assert forall|j: int| 0 <= j < rest@.len() implies ranking::views(rest@)[j]
                    == models().skip(k + 1)[j] by {
                    assert(rest@[j] == before[j + 1]);
                    assert(ranking::views(before)[j + 1] == models().skip(k)[j + 1]);
                }
            }
            k = k + 1;
        }
    }
    None
}

/// How many models of the catalog, from the `k`th on, stand at or behind the one with this id.
pub open spec fn capability_from(id: Seq<char>, k: int) -> nat
    decreases models().len() - k,
{
    if k < 0 || k >= models().len() {
        0
    } else if models()[k].id == id {
        (models().len() - k) as nat
    } else {
        capability_from(id, k + 1)
    }
}

/// How strong a model is at coding: the catalog lists the strongest first, and what it does not
/// list has none.
pub fn capability(id: &str) -> (r: u32)
    ensures
        r == capability_from(id@, 0),
{
    let list = all();
    let total = list.len();
    proof {
        assert(ranking::views(list@).len() == list@.len());
    }
    let mut k: usize = 0;
    while k < total
        invariant
            total == list@.len(),
            total <= 6,
            ranking::views(list@) == models(),
            capability_from(id@, 0) == capability_from(id@, k as int),
        decreases total - k,
    {
        proof {
            assert(ranking::views(list@)[k as int] == list@[k as int]@);
        }
        if text::str_eq(list[k].id.as_str(), id) {
            return (total - k) as u32;
        }
        k = k + 1;
    }
    0
}

proof fn lemma_ids_differ()
    ensures
        forall|i: int, j: int|
            0 <= i < j < models().len() ==> (#[trigger] models()[i]).id != (
            #[trigger] models()[j]).id,
{
    reveal_strlit("qwen3-coder-30b-a3b");
    reveal_strlit("devstral-small-2");
    reveal_strlit("qwen2.5-coder-32b");
    reveal_strlit("qwen2.5-coder-14b");
    reveal_strlit("qwen2.5-coder-7b");
    reveal_strlit("qwen2.5-coder-3b");
    assert("qwen3-coder-30b-a3b"@.len() == 19);
    assert("devstral-small-2"@[0] == 'd');
    assert("qwen2.5-coder-32b"@.len() == 17 && "qwen2.5-coder-32b"@[14] == '3');
    assert("qwen2.5-coder-14b"@.len() == 17 && "qwen2.5-coder-14b"@[14] == '1');
    assert("qwen2.5-coder-7b"@.len() == 16 && "qwen2.5-coder-7b"@[0] == 'q'
        && "qwen2.5-coder-7b"@[14] == '7');
    assert("qwen2.5-coder-3b"@.len() == 16 && "qwen2.5-coder-3b"@[0] == 'q'
        && "qwen2.5-coder-3b"@[14] == '3');
}

/// Every model of the catalog is found by its id.
pub proof fn law_every_model_is_found(i: int)
    requires
        0 <= i < models().len(),
    ensures
        found(models()[i].id) == Some(models()[i]),
{
    lemma_ids_differ();
    lemma_found(models()[i].id, 0, i);
}

/// Of two models of the catalog, the one that is listed first is the stronger one.
pub proof fn law_strongest_first(i: int, j: int)
    requires
        0 <= i < j < models().len(),
    ensures
        capability_from(models()[i].id, 0) > capability_from(models()[j].id, 0) > 0,
{
    lemma_ids_differ();
    lemma_capability(models()[i].id, 0, i);
    lemma_capability(models()[j].id, 0, j);
}

proof fn lemma_capability(id: Seq<char>, k: int, i: int)
    requires
        0 <= k <= i < models().len(),
        models()[i].id == id,
        forall|j: int| 0 <= j < i ==> (#[trigger] models()[j]).id != id,
    ensures
        capability_from(id, k) == models().len() - i,
    decreases i - k,
{
    if k < i {
        assert(models()[k].id != id);
        lemma_capability(id, k + 1, i);
    }
}

proof fn lemma_found(id: Seq<char>, k: int, i: int)
    requires
        0 <= k <= i < models().len(),
        models()[i].id == id,
        forall|j: int| 0 <= j < i ==> (#[trigger] models()[j]).id != id,
    ensures
        found_from(id, k) == Some(models()[i]),
    decreases i - k,
{
    if k < i {
        assert(models()[k].id != id);
        lemma_found(id, k + 1, i);
    }
}

/// What is found has the id that was looked for; what the catalog does not list is not found, and
/// has no strength.
pub proof fn law_only_the_catalog_is_found(id: Seq<char>)
    ensures
        found(id) matches Some(m) ==> m.id == id && models().contains(m),
        (forall|i: int| 0 <= i < models().len() ==> (#[trigger] models()[i]).id != id) ==> found(id)
            is None && capability_from(id, 0) == 0,
{
    lemma_found_is(id, 0);
}

proof fn lemma_found_is(id: Seq<char>, k: int)
    requires
        0 <= k <= models().len(),
    ensures
        found_from(id, k) matches Some(m) ==> m.id == id && models().contains(m),
        (forall|i: int| 0 <= i < models().len() ==> (#[trigger] models()[i]).id != id)
            ==> found_from(id, k) is None && capability_from(id, k) == 0,
    decreases models().len() - k,
{
    if k < models().len() {
        if models()[k].id == id {
            assert(models().contains(models()[k]));
        } else {
            lemma_found_is(id, k + 1);
        }
    }
}

} // verus!
