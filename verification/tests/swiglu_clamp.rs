//! Numerics of the clamped SwiGLU activation.

/// SwiGLU with an optional limit: one operand is bounded above before SiLU, the other on both sides.
fn swiglu_clamp_ref(gate: f64, up: f64, limit: Option<f64>) -> f64 {
    let silu = |z: f64| z / (1.0 + (-z).exp());
    match limit {
        None => silu(gate) * up,
        Some(l) => {
            let u = up.clamp(-l, l);
            let g = gate.min(l);
            silu(g) * u
        }
    }
}

/// Gates above the limits and below zero, where the clamp orders can differ.
const CLAMP_GATES: [f32; 12] = [
    -6.0, -4.0, -2.5, -1.5, -0.75, -0.25, 0.1, 0.6, 1.2, 2.0, 4.0, 9.0,
];

const CLAMP_UPS: [f32; 12] = [
    3.0, -3.0, 0.4, -0.4, 1.1, -1.1, 0.9, -0.9, 5.0, -5.0, 0.05, -0.05,
];

/// Clamping before and after SiLU, and one-sided and symmetric bounds, give different answers.
#[test]
fn swiglu_clamp_orders_are_distinguishable() {
    let silu = |z: f64| z / (1.0 + (-z).exp());
    for limit in [0.5f64, 1.0, 3.0] {
        let post = |gate: f64, up: f64| silu(gate).min(limit) * up.clamp(-limit, limit);
        let sym = |gate: f64, up: f64| silu(gate.clamp(-limit, limit)) * up.clamp(-limit, limit);
        let one_up = |gate: f64, up: f64| silu(gate.min(limit)) * up.min(limit);

        let (mut d_post, mut d_sym, mut d_up) = (0.0f64, 0.0f64, 0.0f64);
        let mut neg_lobe = 0.0f64;
        for &gz in CLAMP_GATES.iter() {
            for &uz in CLAMP_UPS.iter() {
                let (gz, uz) = (gz as f64, uz as f64);
                let want = swiglu_clamp_ref(gz, uz, Some(limit));
                d_post = d_post.max((want - post(gz, uz)).abs());
                d_sym = d_sym.max((want - sym(gz, uz)).abs());
                d_up = d_up.max((want - one_up(gz, uz)).abs());
                if gz < 0.0 {
                    neg_lobe = neg_lobe.max((want - post(gz, uz)).abs());
                }
            }
        }
        println!(
            "clamp variant separation @limit={limit}: post-SiLU={d_post:e} sym-gate={d_sym:e} \
             one-sided-up={d_up:e} (negative-gate-only post-SiLU={neg_lobe:e})"
        );
        assert!(
            d_post > 1e-2,
            "post-SiLU clamp indistinguishable @{limit}: {d_post:e}"
        );
        assert!(
            d_sym > 1e-2,
            "symmetric gate clamp indistinguishable @{limit}: {d_sym:e}"
        );
        assert!(
            d_up > 1e-2,
            "one-sided up clamp indistinguishable @{limit}: {d_up:e}"
        );
        assert_eq!(
            neg_lobe, 0.0,
            "a positive limit cannot separate the orders on a negative gate — if this fires the \
             reasoning above is wrong, not the number"
        );
    }
}
