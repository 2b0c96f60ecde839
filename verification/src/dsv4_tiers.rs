//! Which compression tiers of DeepSeek V4 generate: the pure sliding window (ratio 0) alone.
//!
//! A layer at any other ratio would lose every long-range key in a graph without a compressed
//! half, so a model that has one is refused by name rather than run.

use crate::dsv4_plan::DSV4_CSA_RATIO;
use vstd::prelude::*;
use vstd::string::StringExecFns;

verus! {

/// The decimal digit `d`.
pub open spec fn digit(d: int) -> &'static str {
    if d == 0 {
        "0"
    } else if d == 1 {
        "1"
    } else if d == 2 {
        "2"
    } else if d == 3 {
        "3"
    } else if d == 4 {
        "4"
    } else if d == 5 {
        "5"
    } else if d == 6 {
        "6"
    } else if d == 7 {
        "7"
    } else if d == 8 {
        "8"
    } else {
        "9"
    }
}

/// `n` in decimal, without leading zeros.
pub open spec fn decimal(n: nat) -> Seq<char>
    decreases n,
{
    if n < 10 {
        digit(n as int)@
    } else {
        decimal(n / 10) + digit((n % 10) as int)@
    }
}

/// `n` in decimal, without leading zeros.
fn decimal_string(n: u64) -> (s: String)
    ensures
        s@ == decimal(n as nat),
    decreases n,
{
    let last: &str = match n % 10 {
        0 => "0",
        1 => "1",
        2 => "2",
        3 => "3",
        4 => "4",
        5 => "5",
        6 => "6",
        7 => "7",
        8 => "8",
        _ => "9",
    };
    if n < 10 {
        last.to_string()
    } else {
        let mut s = decimal_string(n / 10);
        s.append(last);
        s
    }
}

/// The first layer of a model that is compressed, and its ratio.
#[derive(Clone, Copy, PartialEq, Eq, Structural, Debug)]
pub struct CompressedLayer {
    pub layer: usize,
    pub ratio: u32,
}

impl CompressedLayer {
    /// The text of the refusal: the layer, its ratio, and what its tier would need.
    pub open spec fn text(self) -> Seq<char> {
        "arch=deepseek4 (DeepSeek V4) layer "@ + decimal(self.layer as nat) + " has compress_ratio "@
            + decimal(self.ratio as nat)
            + ": only the ratio-0 tier (pure sliding window) generates. A compressed layer needs the "@
            + (if self.ratio == DSV4_CSA_RATIO {
            "CSA"@
        } else {
            "HCA"@
        }) + " compressor over blocks of "@ + decimal(self.ratio as nat) + (if self.ratio
            == DSV4_CSA_RATIO {
            " tokens, its persistent compressor state, the CSA/HCA block cache and the lightning indexer with its own compressor + LID cache"@
        } else {
            " tokens, its persistent compressor state and the CSA/HCA block cache"@
        }) + " — none of which is implemented. See docs/deepseek.md § Stage 4."@
    }

    /// The refusal as text.
    pub fn to_string(&self) -> (s: String)
        ensures
            s@ == self.text(),
    {
        let ratio = decimal_string(self.ratio as u64);
        let mut s = "arch=deepseek4 (DeepSeek V4) layer ".to_string();
        s.append(decimal_string(self.layer as u64).as_str());
        s.append(" has compress_ratio ");
        s.append(ratio.as_str());
        s.append(
            ": only the ratio-0 tier (pure sliding window) generates. A compressed layer needs the ",
        );
        s.append(
            if self.ratio == DSV4_CSA_RATIO {
                "CSA"
            } else {
                "HCA"
            },
        );
        s.append(" compressor over blocks of ");
        s.append(ratio.as_str());
        s.append(
            if self.ratio == DSV4_CSA_RATIO {
                " tokens, its persistent compressor state, the CSA/HCA block cache and the lightning indexer with its own compressor + LID cache"
            } else {
                " tokens, its persistent compressor state and the CSA/HCA block cache"
            },
        );
        s.append(" — none of which is implemented. See docs/deepseek.md § Stage 4.");
        s
    }
}

/// Every layer is a pure sliding window.
pub open spec fn pure_window(ratios: Seq<u32>) -> bool {
    forall|l: int| 0 <= l < ratios.len() ==> ratios[l] == 0
}

/// Refuses a model with a compressed layer, naming the first one. `ratios` holds the compression
/// ratio of each layer.
pub fn refuse_compressed_layer(ratios: &[u32]) -> (r: Result<(), CompressedLayer>)
    ensures
        r is Ok <==> pure_window(ratios@),
        match r {
            Ok(()) => forall|l: int| 0 <= l < ratios@.len() ==> ratios@[l] == 0,
            Err(e) => e.layer < ratios@.len() && e.ratio == ratios@[e.layer as int] && e.ratio != 0
                && forall|l: int| 0 <= l < e.layer ==> ratios@[l] == 0,
        },
{
    let mut layer: usize = 0;
    while layer < ratios.len()
        invariant
            layer <= ratios.len(),
            forall|l: int| 0 <= l < layer ==> ratios@[l] == 0,
        decreases ratios.len() - layer,
    {
        if ratios[layer] != 0 {
            return Err(CompressedLayer { layer, ratio: ratios[layer] });
        }
        layer += 1;
    }
    Ok(())
}

} // verus!
