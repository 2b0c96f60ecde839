//! Numerics of the pooling that turns the rows a compressor plan reads into one cache row.

/// Shape of one pooling case, and how wide its scores spread.
#[derive(Clone, Copy)]
struct CpDims {
    blocks: usize,
    window: usize,
    n_embd: usize,
    sentinels: usize,
    wide: bool,
}

impl CpDims {
    fn sentinels_in(&self, b: usize) -> usize {
        self.sentinels.saturating_sub(b).min(self.window - 1)
    }
}

fn cp_cases() -> Vec<(&'static str, CpDims)> {
    vec![
        (
            "hca window=128, 3 blocks, n_embd=5",
            CpDims {
                blocks: 3,
                window: 128,
                n_embd: 5,
                sentinels: 0,
                wide: false,
            },
        ),
        (
            "csa window=8 (2*ratio), 1 block, n_embd=129",
            CpDims {
                blocks: 1,
                window: 8,
                n_embd: 129,
                sentinels: 0,
                wide: false,
            },
        ),
        (
            "window=4, 5 blocks, sentinels on the first three",
            CpDims {
                blocks: 5,
                window: 4,
                n_embd: 7,
                sentinels: 3,
                wide: false,
            },
        ),
        (
            "window=8, 2 blocks, sentinels, n_embd=64 (exactly one workgroup)",
            CpDims {
                blocks: 2,
                window: 8,
                n_embd: 64,
                sentinels: 5,
                wide: false,
            },
        ),
        (
            "wide scores (exp overflows f32 without the max-subtract)",
            CpDims {
                blocks: 2,
                window: 4,
                n_embd: 33,
                sentinels: 1,
                wide: true,
            },
        ),
    ]
}

fn cp_values(d: CpDims) -> Vec<f32> {
    let mut v: Vec<f32> = (0..d.blocks * d.window * d.n_embd)
        .map(|i| (((i * 29 + 7) % 41) as f32 - 20.0) * 0.17)
        .collect();
    for b in 0..d.blocks {
        for w in 0..d.sentinels_in(b) {
            for (c, o) in v[(b * d.window + w) * d.n_embd..][..d.n_embd]
                .iter_mut()
                .enumerate()
            {
                *o = 1e4 * (c as f32 + 1.0);
            }
        }
    }
    v
}

fn cp_scores(d: CpDims) -> Vec<f32> {
    let amp = if d.wide { 12.0 } else { 0.3 };
    let mut s: Vec<f32> = (0..d.blocks * d.window * d.n_embd)
        .map(|i| (((i * 23 + 5) % 37) as f32 - 18.0) * amp)
        .collect();
    for b in 0..d.blocks {
        for w in 0..d.sentinels_in(b) {
            s[(b * d.window + w) * d.n_embd..][..d.n_embd].fill(f32::NEG_INFINITY);
        }
    }
    s
}

/// The definition, and ways of getting it wrong.
#[derive(Clone, Copy, PartialEq, Eq)]
enum CpVariant {
    Faithful,
    FeatureAxisSoftmax,
    NoMaxSubtract,
    SwapValuesScores,
    StrideOffByOne,
}

/// Softmax-weighted pooling of each window, feature by feature.
fn cp_ref(values: &[f32], scores: &[f32], d: CpDims, v: CpVariant) -> Vec<f64> {
    let (nb, nw, ne) = (d.blocks, d.window, d.n_embd);
    let (values, scores) = if v == CpVariant::SwapValuesScores {
        (scores, values)
    } else {
        (values, scores)
    };
    let slab = nw * ne;
    let at = |b: usize, w: usize, c: usize| -> usize {
        let off = if v == CpVariant::StrideOffByOne {
            (w * (ne + 1) + c) % slab
        } else {
            w * ne + c
        };
        b * slab + off
    };
    let mut out = vec![0f64; nb * ne];
    for b in 0..nb {
        if v == CpVariant::FeatureAxisSoftmax {
            for w in 0..nw {
                let m = (0..ne)
                    .map(|c| scores[at(b, w, c)])
                    .fold(f32::NEG_INFINITY, f32::max);
                let e = |c: usize| ((scores[at(b, w, c)] - m) as f64).exp();
                let den: f64 = (0..ne).map(e).sum();
                for c in 0..ne {
                    out[b * ne + c] += values[at(b, w, c)] as f64 * e(c) / den;
                }
            }
            continue;
        }
        for c in 0..ne {
            if v == CpVariant::NoMaxSubtract {
                let e = |w: usize| scores[at(b, w, c)].exp() as f64;
                let num: f64 = (0..nw).map(|w| values[at(b, w, c)] as f64 * e(w)).sum();
                let den: f64 = (0..nw).map(e).sum();
                out[b * ne + c] = num / den;
                continue;
            }
            let m = (0..nw)
                .map(|w| scores[at(b, w, c)])
                .fold(f32::NEG_INFINITY, f32::max);
            if m == f32::NEG_INFINITY {
                out[b * ne + c] = 0.0;
                continue;
            }
            let e = |w: usize| ((scores[at(b, w, c)] - m) as f64).exp();
            let num: f64 = (0..nw).map(|w| values[at(b, w, c)] as f64 * e(w)).sum();
            let den: f64 = (0..nw).map(e).sum();
            out[b * ne + c] = num / den;
        }
    }
    out
}

/// How far an answer moved; one that is not finite counts as infinitely far.
fn cp_moved(a: &[f64], b: &[f64]) -> f64 {
    a.iter()
        .zip(b)
        .map(|(x, y)| {
            if x.is_finite() && y.is_finite() {
                (x - y).abs()
            } else {
                f64::INFINITY
            }
        })
        .fold(0.0, f64::max)
}

const CP_TOL: f64 = 1e-5;

/// Each way of getting the pooling wrong changes the answer, or leaves it alone where the case
/// cannot show it.
#[test]
fn compress_pool_details_are_load_bearing() {
    for (name, d) in cp_cases() {
        let values = cp_values(d);
        let scores = cp_scores(d);
        let want = cp_ref(&values, &scores, d, CpVariant::Faithful);
        let scale_of = want.iter().fold(0f64, |m, v| m.max(v.abs())).max(1.0);
        let moved = |what: &str, v: CpVariant| -> f64 {
            let e = cp_moved(&want, &cp_ref(&values, &scores, d, v)) / scale_of;
            println!("CompressPool {name}: {what} moves the answer by rel={e:e}");
            e
        };
        for (what, v) in [
            (
                "softmax over the feature axis",
                CpVariant::FeatureAxisSoftmax,
            ),
            ("values and scores swapped", CpVariant::SwapValuesScores),
            ("window stride n_embd+1", CpVariant::StrideOffByOne),
        ] {
            let e = moved(what, v);
            assert!(
                e > 1e-3,
                "{name}: {what} changed the answer by only {e:e} — this case cannot detect it"
            );
        }
        let e = moved("dropping the max-subtract", CpVariant::NoMaxSubtract);
        if d.wide {
            assert!(
                e > 1e-3,
                "{name}: dropping the max-subtract changed the answer by only {e:e} — the scores \
                 are meant to overflow f32's exp here"
            );
        } else {
            assert!(
                e < CP_TOL,
                "{name}: dropping the max-subtract was expected to be algebraically inert on \
                 finite moderate scores (exp(-inf) is exactly 0), but it moved the answer by \
                 {e:e} — re-read which case is supposed to expose it"
            );
        }
    }
}
