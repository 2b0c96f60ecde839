//! What the calls of the executor skeleton give, over their arguments and results alone.
//!
//! Each law takes a call as its hypothesis: `call_ensures(f, args, result)` says that `result` is
//! something `f` may answer on `args`. What follows is said of graphs, ops and indices directly.

use crate::error::Error;
use crate::exec::{
    entries, is_walk, live_indices, live_ops, live_walk, provision, provisions, run_ops,
    select_below, targets, write_back_at, write_back_targets, writes_back, OpDispatch, Provision,
};
use crate::exec_laws::lemma_select_below;
use crate::graph;
use crate::graph::{Graph, Op, TensorDecl, TensorKind};
use crate::tensor::{DType, TensorDesc, TensorId, TensorSet};
use std::collections::HashSet;
use vstd::prelude::*;

verus! {

/// The handles reached in place are exactly those that some op names as a KV cache, wherever in the
/// graph the op stands.
pub proof fn law_in_place_inputs(graph: &Graph, direct: TensorSet, id: TensorId)
    requires
        call_ensures(Graph::in_place_inputs, (graph,), direct),
    ensures
        direct@.contains(id) <==> exists|k: int|
            0 <= k < graph.ops@.len() && match #[trigger] graph.ops@[k] {
                Op::WriteKv { cache, .. } => cache == id,
                Op::Attention { k_cache, v_cache, .. } => k_cache == id || v_cache == id,
                _ => false,
            },
{
    lemma_in_place(graph.ops@, id);
}

/// What it is to be reached in place, op by op.
proof fn lemma_in_place(ops: Seq<Op>, id: TensorId)
    ensures
        graph::in_place(ops, id) <==> exists|k: int|
            0 <= k < ops.len() && match #[trigger] ops[k] {
                Op::WriteKv { cache, .. } => cache == id,
                Op::Attention { k_cache, v_cache, .. } => k_cache == id || v_cache == id,
                _ => false,
            },
{
    if graph::in_place(ops, id) {
        let k = choose|k: int| 0 <= k < ops.len() && (#[trigger] ops[k]).uses_kv_cache(id);
        assert(match ops[k] {
            Op::WriteKv { cache, .. } => cache == id,
            Op::Attention { k_cache, v_cache, .. } => k_cache == id || v_cache == id,
            _ => false,
        });
    }
    if exists|k: int|
        0 <= k < ops.len() && match #[trigger] ops[k] {
            Op::WriteKv { cache, .. } => cache == id,
            Op::Attention { k_cache, v_cache, .. } => k_cache == id || v_cache == id,
            _ => false,
        } {
        let k = choose|k: int|
            0 <= k < ops.len() && match #[trigger] ops[k] {
                Op::WriteKv { cache, .. } => cache == id,
                Op::Attention { k_cache, v_cache, .. } => k_cache == id || v_cache == id,
                _ => false,
            };
        assert(ops[k].uses_kv_cache(id));
    }
}

/// The action for a handle, kind by kind: scratch and outputs are zeroed, weights are left alone,
/// and an input is loaded unless it is reached in place.
pub proof fn law_provision(kind: TensorKind, id: TensorId, direct: &TensorSet, action: Provision)
    requires
        call_ensures(provision, (kind, id, direct), action),
    ensures
        action == Provision::Zero <==> kind == TensorKind::Internal || kind == TensorKind::Output,
        action == Provision::Load <==> kind == TensorKind::Input && !direct@.contains(id),
        action == Provision::Skip <==> kind == TensorKind::Weight || (kind == TensorKind::Input
            && direct@.contains(id)),
{
}

/// A handle is copied back where it is an output, or an f32 input that is not reached in place, and
/// nowhere else.
pub proof fn law_writes_back(
    kind: TensorKind,
    dtype: DType,
    id: TensorId,
    direct: &TensorSet,
    copy: bool,
)
    requires
        call_ensures(writes_back, (kind, dtype, id, direct), copy),
    ensures
        kind == TensorKind::Output ==> copy,
        kind == TensorKind::Weight || kind == TensorKind::Internal ==> !copy,
        kind == TensorKind::Input ==> (copy <==> dtype == DType::F32 && !direct@.contains(id)),
{
}

/// The setup lists every declared tensor once, in declaration order, with its handle and its
/// declaration.
pub proof fn law_setup_lists_every_tensor<'a>(
    graph: &'a Graph,
    list: Vec<(TensorId, &'a TensorDecl, Provision)>,
)
    requires
        call_ensures(provisions, (graph,), list),
    ensures
        list@.len() == graph.tensors@.len(),
        forall|i: int|
            0 <= i < list@.len() ==> (#[trigger] list@[i]).0 == TensorId(i as u32) && *list@[i].1
                == graph.tensors@[i],
{
}

/// An input that no op names as a KV cache is loaded, whatever its shape and element type: the ops
/// read what the caller bound.
pub proof fn law_plain_input_is_loaded<'a>(
    graph: &'a Graph,
    list: Vec<(TensorId, &'a TensorDecl, Provision)>,
    i: int,
)
    requires
        call_ensures(provisions, (graph,), list),
        0 <= i < graph.tensors@.len(),
        graph.tensors@[i].kind == TensorKind::Input,
        forall|k: int|
            0 <= k < graph.ops@.len() ==> match #[trigger] graph.ops@[k] {
                Op::WriteKv { cache, .. } => cache != TensorId(i as u32),
                Op::Attention { k_cache, v_cache, .. } => k_cache != TensorId(i as u32) && v_cache
                    != TensorId(i as u32),
                _ => true,
            },
    ensures
        list@[i].2 == Provision::Load,
{
    lemma_in_place(graph.ops@, TensorId(i as u32));
}

/// An input that some op names as a KV cache is left alone: it is never mirrored whole.
pub proof fn law_cache_is_not_loaded<'a>(
    graph: &'a Graph,
    list: Vec<(TensorId, &'a TensorDecl, Provision)>,
    i: int,
    k: int,
)
    requires
        call_ensures(provisions, (graph,), list),
        0 <= i < graph.tensors@.len(),
        graph.tensors@[i].kind == TensorKind::Input,
        0 <= k < graph.ops@.len(),
        match graph.ops@[k] {
            Op::WriteKv { cache, .. } => cache == TensorId(i as u32),
            Op::Attention { k_cache, v_cache, .. } => k_cache == TensorId(i as u32) || v_cache
                == TensorId(i as u32),
            _ => false,
        },
    ensures
        list@[i].2 == Provision::Skip,
{
    lemma_in_place(graph.ops@, TensorId(i as u32));
}

/// Scratch and outputs are zeroed and weights are left alone, whatever their shape and element type
/// and whatever the ops do with them.
pub proof fn law_other_kinds_are_provided_alike<'a>(
    graph: &'a Graph,
    list: Vec<(TensorId, &'a TensorDecl, Provision)>,
    i: int,
)
    requires
        call_ensures(provisions, (graph,), list),
        0 <= i < graph.tensors@.len(),
    ensures
        graph.tensors@[i].kind == TensorKind::Internal ==> list@[i].2 == Provision::Zero,
        graph.tensors@[i].kind == TensorKind::Output ==> list@[i].2 == Provision::Zero,
        graph.tensors@[i].kind == TensorKind::Weight ==> list@[i].2 == Provision::Skip,
{
}

/// A tensor to copy back is among the targets.
proof fn lemma_is_target(graph: Graph, i: int)
    requires
        0 <= i < graph.tensors@.len(),
        write_back_at(graph, i),
    ensures
        targets(graph).contains(graph::handle_at(i)),
{
    let chosen = |i: int| write_back_at(graph, i);
    let indices = select_below(graph.tensors@.len(), chosen);
    lemma_select_below(graph.tensors@.len(), chosen);
    assert(chosen(i));
    assert(indices.contains(i));
    let k = choose|k: int| 0 <= k < indices.len() && indices[k] == i;
    assert(targets(graph)[k] == graph::handle_at(i));
}

/// Every output is copied back.
pub proof fn law_every_output_is_a_target(graph: &Graph, ids: Vec<TensorId>, i: int)
    requires
        call_ensures(write_back_targets, (graph,), ids),
        0 <= i < graph.tensors@.len(),
        graph.tensors@[i].kind == TensorKind::Output,
    ensures
        ids@.contains(TensorId(i as u32)),
{
    lemma_is_target(*graph, i);
}

/// Every f32 input that no op names as a KV cache is copied back, whatever its shape: a state that
/// the ops updated is not lost.
pub proof fn law_every_plain_f32_input_is_a_target(graph: &Graph, ids: Vec<TensorId>, i: int)
    requires
        call_ensures(write_back_targets, (graph,), ids),
        0 <= i < graph.tensors@.len(),
        graph.tensors@[i].kind == TensorKind::Input,
        graph.tensors@[i].desc.dtype == DType::F32,
        forall|k: int|
            0 <= k < graph.ops@.len() ==> match #[trigger] graph.ops@[k] {
                Op::WriteKv { cache, .. } => cache != TensorId(i as u32),
                Op::Attention { k_cache, v_cache, .. } => k_cache != TensorId(i as u32) && v_cache
                    != TensorId(i as u32),
                _ => true,
            },
    ensures
        ids@.contains(TensorId(i as u32)),
{
    lemma_in_place(graph.ops@, TensorId(i as u32));
    lemma_is_target(*graph, i);
}

/// The targets come in declaration order, each tensor once, and each is an output or an f32 input
/// that no op names as a KV cache: no scratch, no weight, no cache and no input of another type.
pub proof fn law_nothing_else_is_a_target(graph: &Graph, ids: Vec<TensorId>)
    requires
        call_ensures(write_back_targets, (graph,), ids),
    ensures
        exists|at: Seq<int>|
            {
                &&& #[trigger] at.len() == ids@.len()
                &&& forall|k: int, l: int| 0 <= k < l < at.len() ==> at[k] < at[l]
                &&& forall|k: int|
                    0 <= k < at.len() ==> {
                        &&& 0 <= #[trigger] at[k] < graph.tensors@.len()
                        &&& ids@[k] == TensorId(at[k] as u32)
                        &&& graph.tensors@[at[k]].kind == TensorKind::Output || (
                        graph.tensors@[at[k]].kind == TensorKind::Input
                            && graph.tensors@[at[k]].desc.dtype == DType::F32 && forall|j: int|
                            0 <= j < graph.ops@.len() ==> match #[trigger] graph.ops@[j] {
                                Op::WriteKv { cache, .. } => cache != ids@[k],
                                Op::Attention { k_cache, v_cache, .. } => k_cache != ids@[k]
                                    && v_cache != ids@[k],
                                _ => true,
                            })
                    }
            },
{
    let chosen = |i: int| write_back_at(*graph, i);
    let at = select_below(graph.tensors@.len(), chosen);
    lemma_select_below(graph.tensors@.len(), chosen);
    assert(at.len() == ids@.len());
    assert forall|k: int| 0 <= k < at.len() implies {
        &&& 0 <= #[trigger] at[k] < graph.tensors@.len()
        &&& ids@[k] == TensorId(at[k] as u32)
        &&& graph.tensors@[at[k]].kind == TensorKind::Output || (graph.tensors@[at[k]].kind
            == TensorKind::Input && graph.tensors@[at[k]].desc.dtype == DType::F32 && forall|j: int|
            0 <= j < graph.ops@.len() ==> match #[trigger] graph.ops@[j] {
                Op::WriteKv { cache, .. } => cache != ids@[k],
                Op::Attention { k_cache, v_cache, .. } => k_cache != ids@[k] && v_cache != ids@[k],
                _ => true,
            })
    } by {
        assert(chosen(at[k]));
        lemma_in_place(graph.ops@, TensorId(at[k] as u32));
    }
}

/// What is copied back was provided: no target is a handle that the setup skipped.
pub proof fn law_targets_were_provided<'a>(
    graph: &'a Graph,
    list: Vec<(TensorId, &'a TensorDecl, Provision)>,
    ids: Vec<TensorId>,
    i: int,
)
    requires
        call_ensures(provisions, (graph,), list),
        call_ensures(write_back_targets, (graph,), ids),
        0 <= i < graph.tensors@.len() <= u32::MAX + 1,
        ids@.contains(TensorId(i as u32)),
    ensures
        list@[i].2 != Provision::Skip,
{
    crate::exec_laws::law_targets(*graph);
    assert(graph::handle_at(i) == TensorId(i as u32));
}

/// The walk lists the ops that are not skipped, each with its own index, in graph order.
pub proof fn law_live_ops<'a>(ops: &'a [Op], skip: &HashSet<usize>, list: Vec<(usize, &'a Op)>)
    requires
        call_ensures(live_ops, (ops, skip), list),
    ensures
        forall|k: int|
            0 <= k < list@.len() ==> {
                &&& (#[trigger] list@[k]).0 < ops@.len()
                &&& *list@[k].1 == ops@[list@[k].0 as int]
                &&& !skip@.contains(list@[k].0)
            },
        forall|k: int, l: int| 0 <= k < l < list@.len() ==> list@[k].0 < list@[l].0,
        forall|i: int|
            #![trigger skip@.contains(i as usize)]
            0 <= i < ops@.len() && !skip@.contains(i as usize) ==> exists|k: int|
                0 <= k < list@.len() && (#[trigger] list@[k]).0 == i && *list@[k].1 == ops@[i],
{
    let chosen = |i: int| !skip@.contains(i as usize);
    let at = live_indices(ops@.len(), skip@);
    let walk = live_walk(ops@, skip@);
    lemma_select_below(ops@.len(), chosen);
    assert(at == select_below(ops@.len(), chosen));
    assert(ops.len() == ops@.len());
    assert(walk.len() == list@.len());
    assert forall|k: int| 0 <= k < list@.len() implies (#[trigger] list@[k]).0 == at[k]
        && *list@[k].1 == ops@[at[k]] && 0 <= at[k] < ops@.len() && !skip@.contains(
        at[k] as usize,
    ) by {
        assert(entries(list@)[k] == (list@[k].0, *list@[k].1));
        assert(chosen(at[k]));
    }
    assert forall|i: int|
        #![trigger skip@.contains(i as usize)]
        0 <= i < ops@.len() && !skip@.contains(i as usize) implies exists|k: int|
        0 <= k < list@.len() && (#[trigger] list@[k]).0 == i && *list@[k].1 == ops@[i] by {
        assert(chosen(i));
        assert(at.contains(i));
        let k = choose|k: int| 0 <= k < at.len() && at[k] == i;
        assert(list@[k].0 == i);
    }
}

/// A walk that answers success has dispatched every op that is not skipped, once each, whatever the
/// op, in graph order and each from the state that the one before left, and every dispatch has
/// succeeded. One that answers an error has dispatched in the same way up to the op that answered
/// it, and nothing after.
///
/// `list` is the list of [`live_ops`] for the same ops and skips.
pub proof fn law_run_ops<'a, D: OpDispatch>(
    ops: &'a [Op],
    skip: &HashSet<usize>,
    list: Vec<(usize, &'a Op)>,
    d: &mut D,
    r: Result<(), Error>,
)
    requires
        call_ensures(live_ops, (ops, skip), list),
        call_ensures(run_ops::<D>, (ops, skip, d), r),
    ensures
        exists|states: Seq<D>|
            {
                &&& 0 < #[trigger] states.len() <= list@.len() + 1
                &&& states.first() == *old(d)
                &&& states.last() == *final(d)
                &&& r is Ok ==> states.len() == list@.len() + 1 && forall|k: int|
                    #![trigger list@[k]]
                    0 <= k < list@.len() ==> states[k].dispatched(
                        list@[k].0,
                        *list@[k].1,
                        Ok(()),
                        &states[k + 1],
                    )
                &&& r is Err ==> states.len() > 1 && forall|k: int|
                    #![trigger list@[k]]
                    0 <= k < states.len() - 1 ==> states[k].dispatched(
                        list@[k].0,
                        *list@[k].1,
                        if k == states.len() - 2 {
                            r
                        } else {
                            Ok(())
                        },
                        &states[k + 1],
                    )
            },
{
    let walk = live_walk(ops@, skip@);
    assert(walk.len() == list@.len());
    let states = choose|states: Seq<D>| #[trigger]
        is_walk(states, walk, r) && states.first() == *old(d) && states.last() == *final(d);
    if r is Ok {
        assert(r->Ok_0 == ());
    }
    assert forall|k: int| #![trigger list@[k]] 0 <= k < states.len() - 1 implies states[k].dispatched(
        list@[k].0,
        *list@[k].1,
        if k == states.len() - 2 {
            r
        } else {
            Ok(())
        },
        &states[k + 1],
    ) by {
        assert(entries(list@)[k] == (list@[k].0, *list@[k].1));
        assert(walk[k] == (list@[k].0, *list@[k].1));
    }
    assert(0 < states.len() <= list@.len() + 1);
}

/// A dispatcher that records the indices it is handed has, after a walk that answers success,
/// recorded exactly the indices that are not skipped, in graph order; after one that answers an
/// error, those up to the failing op.
///
/// `log` is what the dispatcher has recorded, and `list` the list of [`live_ops`].
pub proof fn law_recorder_sees_the_walk<'a, D: OpDispatch>(
    ops: &'a [Op],
    skip: &HashSet<usize>,
    list: Vec<(usize, &'a Op)>,
    d: &mut D,
    r: Result<(), Error>,
    log: spec_fn(D) -> Seq<usize>,
)
    requires
        call_ensures(live_ops, (ops, skip), list),
        call_ensures(run_ops::<D>, (ops, skip, d), r),
        forall|a: D, idx: usize, op: Op, s: Result<(), Error>, b: D| #[trigger]
            a.dispatched(idx, op, s, &b) ==> log(b) == log(a).push(idx),
    ensures
        r is Ok ==> log(*final(d)) == log(*old(d)) + list@.map_values(|e: (usize, &Op)| e.0),
        r is Err ==> exists|n: int|
            0 < n <= list@.len() && log(*final(d)) == log(*old(d)) + (#[trigger] list@.take(
                n,
            )).map_values(|e: (usize, &Op)| e.0),
{
    law_run_ops(ops, skip, list, d, r);
    let states = choose|states: Seq<D>|
        {
            &&& 0 < #[trigger] states.len() <= list@.len() + 1
            &&& states.first() == *old(d)
            &&& states.last() == *final(d)
            &&& r is Ok ==> states.len() == list@.len() + 1 && forall|k: int|
                #![trigger list@[k]]
                0 <= k < list@.len() ==> states[k].dispatched(
                    list@[k].0,
                    *list@[k].1,
                    Ok(()),
                    &states[k + 1],
                )
            &&& r is Err ==> states.len() > 1 && forall|k: int|
                #![trigger list@[k]]
                0 <= k < states.len() - 1 ==> states[k].dispatched(
                    list@[k].0,
                    *list@[k].1,
                    if k == states.len() - 2 {
                        r
                    } else {
                        Ok(())
                    },
                    &states[k + 1],
                )
        };
    let n = states.len() - 1;
    assert forall|k: int| 0 <= k < n implies log(#[trigger] states[k + 1]) == log(states[k]).push(
        list@[k].0,
    ) by {
        let s: Result<(), Error> = if r is Ok || k < n - 1 {
            Ok(())
        } else {
            r
        };
        assert(states[k].dispatched(list@[k].0, *list@[k].1, s, &states[k + 1]));
    }
    lemma_log(states, list@, log, n);
    assert(list@.take(list@.len() as int) =~= list@);
}

proof fn lemma_log<D>(states: Seq<D>, list: Seq<(usize, &Op)>, log: spec_fn(D) -> Seq<usize>, n: int)
    requires
        0 <= n < states.len() <= list.len() + 1,
        forall|k: int|
            0 <= k < n ==> log(#[trigger] states[k + 1]) == log(states[k]).push(list[k].0),
    ensures
        log(states[n]) == log(states[0]) + list.take(n).map_values(|e: (usize, &Op)| e.0),
    decreases n,
{
    let idx = |e: (usize, &Op)| e.0;
    if n > 0 {
        lemma_log(states, list, log, n - 1);
        assert(states[(n - 1) + 1] == states[n]);
        assert(list.take(n).map_values(idx) =~= list.take(n - 1).map_values(idx).push(
            list[n - 1].0,
        ));
        assert(log(states[n]) =~= log(states[0]) + list.take(n).map_values(idx));
    } else {
        assert(log(states[0]) =~= log(states[0]) + list.take(0).map_values(idx));
    }
}

/// A new graph has no tensors and no ops.
pub proof fn law_new_graph(g: Graph)
    requires
        call_ensures(Graph::new, (), g),
    ensures
        g.tensors@.len() == 0,
        g.ops@.len() == 0,
{
}

/// Declaring an input appends one tensor of that kind, leaves the rest of the graph as it was, and
/// answers the new tensor's handle.
pub proof fn law_input(g: &mut Graph, desc: TensorDesc, id: TensorId)
    requires
        call_ensures(Graph::input, (g, desc), id),
    ensures
        id.0 == old(g).tensors@.len() as u32,
        final(g).tensors@.len() == old(g).tensors@.len() + 1,
        final(g).tensors@.drop_last() == old(g).tensors@,
        final(g).tensors@.last().desc == desc,
        final(g).tensors@.last().kind == TensorKind::Input,
        final(g).ops@ == old(g).ops@,
{
}

/// Declaring a weight appends one tensor of that kind, leaves the rest of the graph as it was, and
/// answers the new tensor's handle.
pub proof fn law_weight(g: &mut Graph, desc: TensorDesc, id: TensorId)
    requires
        call_ensures(Graph::weight, (g, desc), id),
    ensures
        id.0 == old(g).tensors@.len() as u32,
        final(g).tensors@.len() == old(g).tensors@.len() + 1,
        final(g).tensors@.drop_last() == old(g).tensors@,
        final(g).tensors@.last().desc == desc,
        final(g).tensors@.last().kind == TensorKind::Weight,
        final(g).ops@ == old(g).ops@,
{
}

/// Declaring scratch appends one tensor of that kind, leaves the rest of the graph as it was, and
/// answers the new tensor's handle.
pub proof fn law_internal(g: &mut Graph, desc: TensorDesc, id: TensorId)
    requires
        call_ensures(Graph::internal, (g, desc), id),
    ensures
        id.0 == old(g).tensors@.len() as u32,
        final(g).tensors@.len() == old(g).tensors@.len() + 1,
        final(g).tensors@.drop_last() == old(g).tensors@,
        final(g).tensors@.last().desc == desc,
        final(g).tensors@.last().kind == TensorKind::Internal,
        final(g).ops@ == old(g).ops@,
{
}

/// Declaring an output appends one tensor of that kind, leaves the rest of the graph as it was, and
/// answers the new tensor's handle.
pub proof fn law_output(g: &mut Graph, desc: TensorDesc, id: TensorId)
    requires
        call_ensures(Graph::output, (g, desc), id),
    ensures
        id.0 == old(g).tensors@.len() as u32,
        final(g).tensors@.len() == old(g).tensors@.len() + 1,
        final(g).tensors@.drop_last() == old(g).tensors@,
        final(g).tensors@.last().desc == desc,
        final(g).tensors@.last().kind == TensorKind::Output,
        final(g).ops@ == old(g).ops@,
{
}

/// Pushing an op appends it and leaves the rest of the graph as it was.
pub proof fn law_push(g: &mut Graph, op: Op)
    requires
        call_ensures(Graph::push, (g, op), ()),
    ensures
        final(g).ops@.len() == old(g).ops@.len() + 1,
        final(g).ops@.drop_last() == old(g).ops@,
        final(g).ops@.last() == op,
        final(g).tensors@ == old(g).tensors@,
{
}

/// The kind of an op is the name of its variant.
pub proof fn law_kind(op: &Op, name: &'static str)
    requires
        call_ensures(Op::kind, (op,), name),
    ensures
        op is WriteKv ==> name@ == "WriteKv"@,
        op is Attention ==> name@ == "Attention"@,
        op is RmsNorm ==> name@ == "RmsNorm"@,
        op is Conv1dSilu ==> name@ == "Conv1dSilu"@,
{
}

/// A descriptor holds the shape and the element type it was made with.
pub proof fn law_desc(shape: Vec<usize>, dtype: DType, desc: TensorDesc)
    requires
        call_ensures(TensorDesc::new, (shape, dtype), desc),
    ensures
        desc.shape@ == shape@,
        desc.dtype == dtype,
{
}

/// A new set of handles contains none.
pub proof fn law_new_set(set: TensorSet, id: &TensorId, found: bool)
    requires
        call_ensures(TensorSet::new, (), set),
        call_ensures(TensorSet::contains, (&set, id), found),
    ensures
        !found,
{
}

/// After an insertion a set contains the handle inserted, and otherwise what it contained.
pub proof fn law_insert(set: &mut TensorSet, id: TensorId, other: &TensorId, before: bool, after: bool)
    requires
        call_ensures(TensorSet::insert, (set, id), ()),
        call_ensures(TensorSet::contains, (&*old(set), other), before),
        call_ensures(TensorSet::contains, (&*final(set), other), after),
    ensures
        after <==> before || *other == id,
{
}

/// The executor skeleton takes every graph, every list of ops, every skip set and every dispatcher.
pub proof fn law_every_graph_is_taken<D: OpDispatch>(
    graph: &Graph,
    ops: &[Op],
    skip: &HashSet<usize>,
    d: &mut D,
)
    ensures
        call_requires(Graph::in_place_inputs, (graph,)),
        call_requires(provisions, (graph,)),
        call_requires(write_back_targets, (graph,)),
        call_requires(live_ops, (ops, skip)),
        call_requires(run_ops::<D>, (ops, skip, d)),
{
}

/// The rules for one handle take every handle.
pub proof fn law_every_handle_is_taken(
    kind: TensorKind,
    dtype: DType,
    id: TensorId,
    direct: &TensorSet,
)
    ensures
        call_requires(provision, (kind, id, direct)),
        call_requires(writes_back, (kind, dtype, id, direct)),
{
}

/// A graph takes every tensor and every op.
pub proof fn law_every_declaration_is_taken(g: &mut Graph, desc: TensorDesc, op: Op)
    ensures
        call_requires(Graph::input, (g, desc)),
        call_requires(Graph::weight, (g, desc)),
        call_requires(Graph::internal, (g, desc)),
        call_requires(Graph::output, (g, desc)),
        call_requires(Graph::push, (g, op)),
{
}

} // verus!
