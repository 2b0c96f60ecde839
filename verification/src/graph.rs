//! The compute graph the executors walk: declared tensors and the ops over them.

use crate::tensor::{TensorDesc, TensorId, TensorSet};
use vstd::prelude::*;

verus! {

/// What a declared tensor is to the graph.
#[derive(Clone, Copy, PartialEq, Eq, Structural, Debug)]
pub enum TensorKind {
    /// Bound by the caller for each step.
    Input,
    /// Bound once, read-only.
    Weight,
    /// Scratch that lives inside one execution.
    Internal,
    /// Read back by the caller.
    Output,
}

/// A tensor as declared: its descriptor and its kind.
#[derive(Clone, PartialEq, Eq, Debug)]
pub struct TensorDecl {
    pub desc: TensorDesc,
    pub kind: TensorKind,
}

/// A 32-bit float as its IEEE 754 bit pattern. The graph carries such values to the backends and
/// never computes with them.
#[derive(Clone, Copy, PartialEq, Eq, Structural, Debug)]
pub struct F32Bits(pub u32);

/// Which cached positions a query row attends to.
#[derive(Clone, Copy, PartialEq, Eq, Structural, Debug)]
pub enum AttnMask {
    /// Every earlier position plus its own.
    Causal,
    /// The given number of most recent positions, its own among them.
    SlidingWindow(usize),
    /// One fixed span for every row, from `lo` to the end of the cache.
    Canvas { lo: usize },
}

/// One operation of a graph.
#[derive(Clone, PartialEq, Eq, Debug)]
pub enum Op {
    /// Append `rows` rows of `src` to a KV cache, in place.
    WriteKv { src: TensorId, cache: TensorId, rows: u32, row_stride: u32, pos: u32 },
    /// Scaled dot-product attention over a KV cache.
    Attention {
        q: TensorId,
        k_cache: TensorId,
        v_cache: TensorId,
        dst: TensorId,
        rows: u32,
        kv_len: u32,
        n_head: u32,
        n_kv: u32,
        head_dim: u32,
        scale: F32Bits,
        mask: AttnMask,
        pos: u32,
        sinks: Option<TensorId>,
        key_bias: Option<TensorId>,
    },
    /// Root-mean-square normalisation of each row.
    RmsNorm { x: TensorId, weight: TensorId, dst: TensorId, rows: u32, dim: u32, eps: F32Bits },
    /// Causal depthwise convolution with SiLU; updates its recurrent `state`.
    Conv1dSilu {
        x: TensorId,
        weight: TensorId,
        state: TensorId,
        dst: TensorId,
        rows: u32,
        channels: u32,
        kernel: u32,
    },
}

impl Op {
    /// Does the op reach `id` as a KV cache, through the buffer bound to it?
    pub open spec fn uses_kv_cache(self, id: TensorId) -> bool {
        match self {
            Op::WriteKv { cache, .. } => id == cache,
            Op::Attention { k_cache, v_cache, .. } => id == k_cache || id == v_cache,
            Op::RmsNorm { .. } => false,
            Op::Conv1dSilu { .. } => false,
        }
    }

    /// The name of the op's variant.
    pub open spec fn kind_name(self) -> &'static str {
        match self {
            Op::WriteKv { .. } => "WriteKv",
            Op::Attention { .. } => "Attention",
            Op::RmsNorm { .. } => "RmsNorm",
            Op::Conv1dSilu { .. } => "Conv1dSilu",
        }
    }

    /// The name of the op's variant.
    pub fn kind(&self) -> (name: &'static str)
        ensures
            name == self.kind_name(),
    {
        match self {
            Op::WriteKv { .. } => "WriteKv",
            Op::Attention { .. } => "Attention",
            Op::RmsNorm { .. } => "RmsNorm",
            Op::Conv1dSilu { .. } => "Conv1dSilu",
        }
    }
}

/// Tensors in declaration order, and ops in execution order.
#[derive(Debug)]
pub struct Graph {
    pub tensors: Vec<TensorDecl>,
    pub ops: Vec<Op>,
}

/// The handle of the tensor declared at index `i`.
pub open spec fn handle_at(i: int) -> TensorId {
    TensorId(i as u32)
}

/// Some op of `ops` reaches `id` as a KV cache.
pub open spec fn in_place(ops: Seq<Op>, id: TensorId) -> bool {
    exists|i: int| 0 <= i < ops.len() && (#[trigger] ops[i]).uses_kv_cache(id)
}

impl Graph {
    /// A graph with no tensors and no ops.
    pub fn new() -> (g: Graph)
        ensures
            g.tensors@ == Seq::<TensorDecl>::empty(),
            g.ops@ == Seq::<Op>::empty(),
    {
        Graph { tensors: Vec::new(), ops: Vec::new() }
    }

    /// Declares one more tensor and returns its handle.
    fn declare(&mut self, desc: TensorDesc, kind: TensorKind) -> (id: TensorId)
        ensures
            id == handle_at(old(self).tensors@.len() as int),
            final(self).tensors@ == old(self).tensors@.push(TensorDecl { desc, kind }),
            final(self).ops == old(self).ops,
    {
        let id = TensorId(self.tensors.len() as u32);
        self.tensors.push(TensorDecl { desc, kind });
        id
    }

    /// Declares an input, bound by the caller for each step.
    pub fn input(&mut self, desc: TensorDesc) -> (id: TensorId)
        ensures
            id == handle_at(old(self).tensors@.len() as int),
            final(self).tensors@ == old(self).tensors@.push(
                TensorDecl { desc, kind: TensorKind::Input },
            ),
            final(self).ops == old(self).ops,
    {
        self.declare(desc, TensorKind::Input)
    }

    /// Declares a weight.
    pub fn weight(&mut self, desc: TensorDesc) -> (id: TensorId)
        ensures
            id == handle_at(old(self).tensors@.len() as int),
            final(self).tensors@ == old(self).tensors@.push(
                TensorDecl { desc, kind: TensorKind::Weight },
            ),
            final(self).ops == old(self).ops,
    {
        self.declare(desc, TensorKind::Weight)
    }

    /// Declares scratch.
    pub fn internal(&mut self, desc: TensorDesc) -> (id: TensorId)
        ensures
            id == handle_at(old(self).tensors@.len() as int),
            final(self).tensors@ == old(self).tensors@.push(
                TensorDecl { desc, kind: TensorKind::Internal },
            ),
            final(self).ops == old(self).ops,
    {
        self.declare(desc, TensorKind::Internal)
    }

    /// Declares an output, read back by the caller.
    pub fn output(&mut self, desc: TensorDesc) -> (id: TensorId)
        ensures
            id == handle_at(old(self).tensors@.len() as int),
            final(self).tensors@ == old(self).tensors@.push(
                TensorDecl { desc, kind: TensorKind::Output },
            ),
            final(self).ops == old(self).ops,
    {
        self.declare(desc, TensorKind::Output)
    }

    /// Appends one op.
    pub fn push(&mut self, op: Op)
        ensures
            final(self).ops@ == old(self).ops@.push(op),
            final(self).tensors == old(self).tensors,
    {
        self.ops.push(op);
    }

    /// The handles that the ops reach in place, through their bound buffers: the KV caches.
    pub fn in_place_inputs(&self) -> (direct: TensorSet)
        ensures
            forall|id: TensorId| #[trigger] direct@.contains(id) <==> in_place(self.ops@, id),
    {
        let mut direct = TensorSet::new();
        let mut i: usize = 0;
        while i < self.ops.len()
            invariant
                i <= self.ops.len(),
                forall|id: TensorId| #[trigger]
                    direct@.contains(id) <==> in_place(self.ops@.take(i as int), id),
            decreases self.ops.len() - i,
        {
            let ghost before = direct@;
            match &self.ops[i] {
                Op::WriteKv { cache, .. } => {
                    direct.insert(*cache);
                },
                Op::Attention { k_cache, v_cache, .. } => {
                    direct.insert(*k_cache);
                    direct.insert(*v_cache);
                },
                Op::RmsNorm { .. } => {},
                Op::Conv1dSilu { .. } => {},
            }
            proof {
                let seen = self.ops@.take(i as int);
                let next = self.ops@.take(i + 1);
                assert(next =~= seen.push(self.ops@[i as int]));
                assert forall|id: TensorId| #[trigger] direct@.contains(id) <==> in_place(
                    next,
                    id,
                ) by {
                    if in_place(seen, id) {
                        let k = choose|k: int|
                            0 <= k < seen.len() && (#[trigger] seen[k]).uses_kv_cache(id);
                        assert(next[k].uses_kv_cache(id));
                    }
                    if self.ops@[i as int].uses_kv_cache(id) {
                        assert(next[i as int].uses_kv_cache(id));
                    }
                    if in_place(next, id) {
                        let k = choose|k: int|
                            0 <= k < next.len() && (#[trigger] next[k]).uses_kv_cache(id);
                        if k < i {
                            assert(seen[k].uses_kv_cache(id));
                        }
                    }
                    assert(direct@.contains(id) <==> before.contains(id)
                        || self.ops@[i as int].uses_kv_cache(id));
                }
            }
            i += 1;
        }
        assert(self.ops@.take(self.ops@.len() as int) =~= self.ops@);
        direct
    }
}

} // verus!
