//! What the user is told of the machine.
use vstd::prelude::*;

use crate::decimal;
use crate::hf;
use crate::text;

verus! {

pub open spec fn brand_v(brand: Option<Seq<char>>) -> Seq<char> {
    match brand {
        Some(b) => if text::trim(b).len() == 0 {
            "Unknown CPU"@
        } else {
            text::trim(b)
        },
        None => "Unknown CPU"@,
    }
}

/// The brand of the processor, as the system gives it.
pub fn cpu_brand(brand: Option<&str>) -> (r: String)
    ensures
        r@ == brand_v(hf::str_opt(brand)),
{
    match brand {
        Some(b) => {
            let t = text::str_trim(b);
            if t.as_str().unicode_len() == 0 {
                text::copy("Unknown CPU")
            } else {
                t
            }
        },
        None => text::copy("Unknown CPU"),
    }
}

/// The graphics unit, where it shares the memory of the processor: on a Mac with a processor of
/// Apple's own, whose brand is given in lower case too.
pub fn unified_gpu(os: &str, brand: &str, lower: &str) -> (r: Option<String>)
    ensures
        match r {
            Some(s) => os@ == "macos"@ && text::contains(lower@, "apple"@) && s@ == brand@
                + " GPU (unified memory)"@,
            None => !(os@ == "macos"@ && text::contains(lower@, "apple"@)),
        },
{
    if text::str_eq(os, "macos") && text::str_contains(lower, "apple") {
        Some(text::cat(brand, " GPU (unified memory)"))
    } else {
        None
    }
}

/// The name of the graphics unit, where it is known.
pub fn detect_gpu(os: &str, brand: &str) -> (r: Option<String>)
    ensures
        match r {
            Some(s) => os@ == "macos"@ && text::contains(text::lowercase(brand@), "apple"@) && s@
                == brand@ + " GPU (unified memory)"@,
            None => !(os@ == "macos"@ && text::contains(text::lowercase(brand@), "apple"@)),
        },
{
    unified_gpu(os, brand, text::to_lowercase(brand).as_str())
}

/// A graphics unit: its name, whether it shares the memory, and the gigabytes of its own.
pub struct GpuSummary {
    pub name: String,
    pub unified: bool,
    pub vram: Option<u64>,
}

pub open spec fn summary_v(ram: u64, gpu: Option<GpuSummary>) -> Seq<char> {
    "Detected: "@ + decimal::dec(ram as nat) + "GB RAM"@ + (match gpu {
        Some(g) => if g.unified {
            " ("@ + g.name@ + ")"@
        } else {
            match g.vram {
                Some(v) => " + "@ + g.name@ + " ("@ + decimal::dec(v as nat) + "GB VRAM)"@,
                None => " + "@ + g.name@,
            }
        },
        None => ""@,
    })
}

/// One line on the machine, of the gigabytes of its memory and its graphics unit.
pub fn build_summary(ram: u64, gpu: &Option<GpuSummary>) -> (r: String)
    ensures
        r@ == summary_v(ram, *gpu),
{
    let mut s = text::cat("Detected: ", decimal::dec_u64(ram).as_str());
    s.append("GB RAM");
    let mut more = text::copy("");
    if let Some(g) = gpu {
        if g.unified {
            more = text::cat(" (", g.name.as_str());
            more.append(")");
        } else {
            more = text::cat(" + ", g.name.as_str());
            if let Some(v) = g.vram {
                more.append(" (");
                more.append(decimal::dec_u64(v).as_str());
                more.append("GB VRAM)");
            }
        }
    }
    s.append(more.as_str());
    s
}

/// The summary tells the memory, and the graphics unit by name: with its own memory where it has
/// some, in brackets where it shares that of the processor.
pub proof fn law_summary(ram: u64, g: GpuSummary, v: u64, b: Seq<char>)
    ensures
        summary_v(ram, None) == "Detected: "@ + decimal::dec(ram as nat) + "GB RAM"@,
        g.unified ==> summary_v(ram, Some(g)) == summary_v(ram, None) + " ("@ + g.name@ + ")"@,
        !g.unified && g.vram == Some(v) ==> summary_v(ram, Some(g)) == summary_v(ram, None)
            + " + "@ + g.name@ + " ("@ + decimal::dec(v as nat) + "GB VRAM)"@,
        !g.unified && g.vram is None ==> summary_v(ram, Some(g)) == summary_v(ram, None) + " + "@
            + g.name@,
        text::trim(b).len() > 0 ==> brand_v(Some(b)) == text::trim(b),
        text::trim(b).len() == 0 ==> brand_v(Some(b)) == "Unknown CPU"@,
        brand_v(None) == "Unknown CPU"@,
{
    reveal_strlit("");
    let bare = "Detected: "@ + decimal::dec(ram as nat) + "GB RAM"@;
    assert(summary_v(ram, None) =~= bare);
    if g.unified {
        assert(summary_v(ram, Some(g)) =~= bare + " ("@ + g.name@ + ")"@);
    } else if g.vram is None {
        assert(summary_v(ram, Some(g)) =~= bare + " + "@ + g.name@);
    } else {
        assert(summary_v(ram, Some(g)) =~= bare + " + "@ + g.name@ + " ("@ + decimal::dec(
            g.vram->0 as nat,
        ) + "GB VRAM)"@);
    }
}

} // verus!
