use infr::error::{backend, Error};
use infr::exec::{
    live_ops, provision, provisions, run_ops, write_back_targets, writes_back, OpDispatch,
    Provision,
};
use infr::graph::{AttnMask, F32Bits, Graph, Op, TensorKind};
use infr::tensor::{DType, TensorDesc, TensorId, TensorSet};
use std::collections::HashSet;

/// Build a graph with one of each kind plus a KV cache the ops write in place.
fn kinds_graph() -> Graph {
    let mut g = Graph::new();
    let hidden = g.input(TensorDesc::new(vec![4], DType::F32)); // 0: plain f32 Input
    let positions = g.input(TensorDesc::new(vec![1], DType::I32)); // 1: non-f32 Input
    let w = g.weight(TensorDesc::new(vec![4], DType::Q4K)); // 2: Weight
    let scratch = g.internal(TensorDesc::new(vec![4], DType::F32)); // 3: Internal
    let kcache = g.input(TensorDesc::new(vec![8], DType::F16)); // 4: in-place Input
    let vcache = g.input(TensorDesc::new(vec![8], DType::F32)); // 5: in-place f32 Input
    let logits = g.output(TensorDesc::new(vec![4], DType::F32)); // 6: Output
    g.push(Op::WriteKv {
        src: hidden,
        cache: kcache,
        rows: 1,
        row_stride: 8,
        pos: 0,
    });
    g.push(Op::Attention {
        q: scratch,
        k_cache: kcache,
        v_cache: vcache,
        dst: logits,
        rows: 1,
        kv_len: 1,
        n_head: 1,
        n_kv: 1,
        head_dim: 8,
        scale: F32Bits(1.0f32.to_bits()),
        mask: AttnMask::Causal,
        pos: 0,
        sinks: None,
        key_bias: None,
    });
    g.push(Op::RmsNorm {
        x: hidden,
        weight: w,
        dst: scratch,
        rows: 1,
        dim: 4,
        eps: F32Bits(1e-6f32.to_bits()),
    });
    let _ = positions;
    g
}

/// Internal and output tensors materialize, a plain input loads, a weight and an in-place (KV)
/// input do nothing.
#[test]
fn provision_matches_inline_classification() {
    let g = kinds_graph();
    let got: Vec<Provision> = provisions(&g).into_iter().map(|(_, _, p)| p).collect();
    assert_eq!(
        got,
        vec![
            Provision::Load, // 0 hidden: plain f32 Input
            Provision::Load, // 1 positions: plain i32 Input (loaded, never written back)
            Provision::Skip, // 2 weight: lazily dequantized
            Provision::Zero, // 3 scratch: Internal
            Provision::Skip, // 4 k_cache: in place
            Provision::Skip, // 5 v_cache: in place
            Provision::Zero, // 6 logits: Output
        ]
    );
    // The direct set is exactly the KV handles, so the two Skips at 4/5 are the in-place ones.
    let direct = g.in_place_inputs();
    assert!(direct.contains(&TensorId(4)) && direct.contains(&TensorId(5)));
    assert!(!direct.contains(&TensorId(0)));
}

/// The targets are those of `Output || (Input && F32 && !direct)`.
#[test]
fn write_back_targets_match_inline_predicate() {
    let g = kinds_graph();
    let direct = g.in_place_inputs();
    let want: Vec<TensorId> = g
        .tensors
        .iter()
        .enumerate()
        .filter(|(i, decl)| {
            matches!(decl.kind, TensorKind::Output)
                || (decl.kind == TensorKind::Input
                    && decl.desc.dtype == DType::F32
                    && !direct.contains(&TensorId(*i as u32)))
        })
        .map(|(i, _)| TensorId(i as u32))
        .collect();
    assert_eq!(want, vec![TensorId(0), TensorId(6)]);
    assert_eq!(write_back_targets(&g), want);
    // The f32 KV cache (5) is f32 and an Input but written IN PLACE: never copied back.
    assert!(!write_back_targets(&g).iter().any(|id| *id == TensorId(5)));
    // The i32 positions Input (1) is read-only.
    assert!(!write_back_targets(&g).iter().any(|id| *id == TensorId(1)));
}

/// `live_ops` yields graph order with the skipped indices elided, and keeps the ORIGINAL index
/// (the key the fusion payload maps are keyed by).
#[test]
fn live_ops_elides_skipped_indices_keeping_original_index() {
    let g = kinds_graph();
    let empty = HashSet::new();
    assert_eq!(
        live_ops(&g.ops, &empty)
            .into_iter()
            .map(|(i, _)| i)
            .collect::<Vec<_>>(),
        vec![0, 1, 2]
    );
    let skip: HashSet<usize> = [1].into_iter().collect();
    let live: Vec<(usize, &'static str)> = live_ops(&g.ops, &skip)
        .into_iter()
        .map(|(i, op)| (i, op.kind()))
        .collect();
    assert_eq!(live, vec![(0, "WriteKv"), (2, "RmsNorm")]);
}

struct Rec {
    seen: Vec<usize>,
    fail_at: Option<usize>,
}

impl OpDispatch for Rec {
    fn dispatch(&mut self, idx: usize, _op: &Op) -> Result<(), Error> {
        self.seen.push(idx);
        if self.fail_at == Some(idx) {
            return Err(backend("boom"));
        }
        Ok(())
    }
}

/// `run_ops` visits exactly `live_ops`, in order, and propagates the first error without
/// visiting anything after it.
#[test]
fn run_ops_visits_live_ops_in_order_and_stops_on_error() {
    let g = kinds_graph();
    let skip: HashSet<usize> = [1].into_iter().collect();
    let mut r = Rec {
        seen: Vec::new(),
        fail_at: None,
    };
    run_ops(&g.ops, &skip, &mut r).unwrap();
    assert_eq!(r.seen, vec![0, 2]);

    let mut r = Rec {
        seen: Vec::new(),
        fail_at: Some(0),
    };
    let err = run_ops(&g.ops, &HashSet::new(), &mut r).unwrap_err();
    assert!(err.to_string().contains("boom"));
    assert_eq!(r.seen, vec![0], "the walk must stop at the failing op");
}

/// The whole table of what happens to a handle before and after the walk.
#[test]
fn residency_table() {
    let id = TensorId(3);
    let mut direct = TensorSet::new();
    let none = TensorSet::new();
    direct.insert(id);
    for kind in [TensorKind::Internal, TensorKind::Output] {
        assert_eq!(provision(kind, id, &none), Provision::Zero);
        assert_eq!(provision(kind, id, &direct), Provision::Zero);
    }
    assert_eq!(provision(TensorKind::Input, id, &none), Provision::Load);
    assert_eq!(provision(TensorKind::Input, id, &direct), Provision::Skip);
    assert_eq!(provision(TensorKind::Weight, id, &none), Provision::Skip);
    assert_eq!(provision(TensorKind::Weight, id, &direct), Provision::Skip);

    for dtype in [DType::F32, DType::F16, DType::Bf16, DType::I32, DType::Q4K] {
        for set in [&none, &direct] {
            assert!(writes_back(TensorKind::Output, dtype, id, set));
            assert!(!writes_back(TensorKind::Weight, dtype, id, set));
            assert!(!writes_back(TensorKind::Internal, dtype, id, set));
        }
        assert_eq!(
            writes_back(TensorKind::Input, dtype, id, &none),
            dtype == DType::F32
        );
        assert!(!writes_back(TensorKind::Input, dtype, id, &direct));
    }
}

/// What is copied back was provided: no target is a handle the setup skipped.
#[test]
fn targets_are_provided() {
    let g = kinds_graph();
    let list = provisions(&g);
    for id in write_back_targets(&g) {
        let (at, decl, action) = list[id.0 as usize];
        assert_eq!(at, id);
        assert_eq!(*decl, g.tensors[id.0 as usize]);
        assert_ne!(action, Provision::Skip);
    }
}

/// A recurrent state is mutated by its op but is no KV cache: it is loaded and copied back.
#[test]
fn recurrent_state_is_loaded_and_copied_back() {
    let mut g = Graph::new();
    let x = g.input(TensorDesc::new(vec![32], DType::F16));
    let weight = g.weight(TensorDesc::new(vec![128], DType::F32));
    let state = g.input(TensorDesc::new(vec![96], DType::F32));
    let dst = g.output(TensorDesc::new(vec![32], DType::F32));
    g.push(Op::Conv1dSilu {
        x,
        weight,
        state,
        dst,
        rows: 1,
        channels: 32,
        kernel: 4,
    });
    assert_eq!(g.ops[0].kind(), "Conv1dSilu");
    assert!(!g.in_place_inputs().contains(&state));
    assert_eq!(provisions(&g)[2].2, Provision::Load);
    assert_eq!(write_back_targets(&g), vec![state, dst]);
}

#[test]
fn empty_graph() {
    let g = Graph::new();
    assert!(provisions(&g).is_empty());
    assert!(write_back_targets(&g).is_empty());
    assert!(live_ops(&g.ops, &HashSet::new()).is_empty());
    let mut r = Rec {
        seen: Vec::new(),
        fail_at: Some(0),
    };
    assert!(run_ops(&g.ops, &HashSet::new(), &mut r).is_ok());
    assert!(r.seen.is_empty());
}

/// An index beyond the graph skips nothing; with every op skipped nothing is dispatched.
#[test]
fn skipping_beyond_and_everything() {
    let g = kinds_graph();
    let beyond: HashSet<usize> = [3, 99].into_iter().collect();
    assert_eq!(live_ops(&g.ops, &beyond).len(), 3);
    assert_eq!(g.ops[1].kind(), "Attention");

    let all: HashSet<usize> = (0..3).collect();
    let mut r = Rec {
        seen: Vec::new(),
        fail_at: Some(1),
    };
    assert!(run_ops(&g.ops, &all, &mut r).is_ok());
    assert!(r.seen.is_empty());
}

#[test]
fn the_walk_stops_in_the_middle() {
    let g = kinds_graph();
    let mut r = Rec {
        seen: Vec::new(),
        fail_at: Some(1),
    };
    let err = run_ops(&g.ops, &HashSet::new(), &mut r).unwrap_err();
    assert_eq!(err.to_string(), "boom");
    assert_eq!(r.seen, vec![0, 1]);
}

/// Skipping more only removes entries.
#[test]
fn skipping_more_removes_entries() {
    let g = kinds_graph();
    let skip: HashSet<usize> = [1].into_iter().collect();
    let more: HashSet<usize> = [0, 1].into_iter().collect();
    let want: Vec<(usize, &Op)> = live_ops(&g.ops, &skip)
        .into_iter()
        .filter(|(i, _)| !more.contains(i))
        .collect();
    assert_eq!(live_ops(&g.ops, &more), want);
    assert_eq!(want.len(), 1);
}

/// A walk may be cut in two: the parts dispatch what the whole does.
#[test]
fn a_walk_in_two_parts() {
    let g = kinds_graph();
    let head: HashSet<usize> = [1, 2].into_iter().collect();
    let tail: HashSet<usize> = [0].into_iter().collect();
    let mut whole = Rec {
        seen: Vec::new(),
        fail_at: Some(2),
    };
    let mut parts = Rec {
        seen: Vec::new(),
        fail_at: Some(2),
    };
    assert!(run_ops(&g.ops, &HashSet::new(), &mut whole).is_err());
    assert!(run_ops(&g.ops, &head, &mut parts).is_ok());
    assert!(run_ops(&g.ops, &tail, &mut parts).is_err());
    assert_eq!(parts.seen, whole.seen);
}
