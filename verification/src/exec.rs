//! Shared graph-executor skeleton: the residency contract and the op walk.
//!
//! Every backend runs the same shape around its per-op bodies: provision a working slot for each
//! tensor handle, walk the ops in order eliding the indices that fusion absorbed, then copy the
//! handles the caller reads back to their bound buffers. What must agree between the backends
//! stands here: which kinds are materialized, which are mutated in place, which are written back,
//! and which ops are dispatched. The residency container, the per-op bodies and the copies stay
//! with each backend.

use crate::error::Error;
use crate::graph;
use crate::graph::{Graph, Op, TensorDecl, TensorKind};
use crate::tensor::{DType, TensorId, TensorSet};
use std::collections::HashSet;
use vstd::prelude::*;

verus! {

/// What an interpreter-style backend must do with one tensor handle before the op walk.
#[derive(Clone, Copy, PartialEq, Eq, Structural, Debug)]
pub enum Provision {
    /// Backend-allocated scratch or a read-back output: materialize zeroed slots.
    Zero,
    /// A per-step input the ops only read: load its bound buffer into the working store.
    Load,
    /// Nothing to do: a weight, dequantized lazily at its use site, or an input the ops mutate in
    /// place through its bound buffer (the KV cache).
    Skip,
}

/// The pre-walk action for a handle of kind `kind`, given whether the ops reach it in place.
pub open spec fn provision_of(kind: TensorKind, direct: bool) -> Provision {
    match kind {
        TensorKind::Internal | TensorKind::Output => Provision::Zero,
        TensorKind::Input => if direct {
            Provision::Skip
        } else {
            Provision::Load
        },
        TensorKind::Weight => Provision::Skip,
    }
}

/// The pre-walk action for one handle. `direct` is [`Graph::in_place_inputs`].
pub fn provision(kind: TensorKind, id: TensorId, direct: &TensorSet) -> (action: Provision)
    ensures
        action == provision_of(kind, direct@.contains(id)),
{
    match kind {
        TensorKind::Internal | TensorKind::Output => Provision::Zero,
        TensorKind::Input => if direct.contains(&id) {
            Provision::Skip
        } else {
            Provision::Load
        },
        TensorKind::Weight => Provision::Skip,
    }
}

/// The pre-walk action for the tensor that `graph` declares at index `i`.
pub open spec fn provision_at(graph: Graph, i: int) -> Provision {
    provision_of(graph.tensors@[i].kind, graph::in_place(graph.ops@, graph::handle_at(i)))
}

/// Every handle in declaration order with its declaration and its [`Provision`]: the working-store
/// setup before the walk.
pub fn provisions<'a>(graph: &'a Graph) -> (list: Vec<(TensorId, &'a TensorDecl, Provision)>)
    ensures
        list@.len() == graph.tensors@.len(),
        forall|i: int|
            0 <= i < list@.len() ==> (#[trigger] list@[i]).0 == graph::handle_at(i) && *list@[i].1
                == graph.tensors@[i] && list@[i].2 == provision_at(*graph, i),
{
    let direct = graph.in_place_inputs();
    let mut list: Vec<(TensorId, &'a TensorDecl, Provision)> = Vec::new();
    let mut i: usize = 0;
    while i < graph.tensors.len()
        invariant
            i <= graph.tensors.len(),
            forall|id: TensorId| #[trigger]
                direct@.contains(id) <==> graph::in_place(graph.ops@, id),
            list@.len() == i,
            forall|j: int|
                0 <= j < i ==> (#[trigger] list@[j]).0 == graph::handle_at(j) && *list@[j].1
                    == graph.tensors@[j] && list@[j].2 == provision_at(*graph, j),
        decreases graph.tensors.len() - i,
    {
        let id = TensorId(i as u32);
        let decl = &graph.tensors[i];
        list.push((id, decl, provision(decl.kind, id, &direct)));
        i += 1;
    }
    list
}

/// Must the post-walk value of such a handle be copied back to its bound buffer? An output always;
/// an f32 input unless the ops reach it in place, where its buffer is already current.
pub open spec fn write_back_of(kind: TensorKind, dtype: DType, direct: bool) -> bool {
    kind == TensorKind::Output || (kind == TensorKind::Input && dtype == DType::F32 && !direct)
}

/// Must this handle's post-walk value be copied back to its bound buffer? `direct` is
/// [`Graph::in_place_inputs`].
///
/// True for every output and for an f32 input the ops may have mutated (conv and recurrent state),
/// but never for one the ops wrote in place. Inputs that are not f32 are read-only.
pub fn writes_back(kind: TensorKind, dtype: DType, id: TensorId, direct: &TensorSet) -> (copy: bool)
    ensures
        copy == write_back_of(kind, dtype, direct@.contains(id)),
{
    kind == TensorKind::Output || (kind == TensorKind::Input && dtype == DType::F32
        && !direct.contains(&id))
}

/// Is the tensor that `graph` declares at index `i` copied back?
pub open spec fn write_back_at(graph: Graph, i: int) -> bool {
    let decl = graph.tensors@[i];
    write_back_of(
        decl.kind,
        decl.desc.dtype,
        graph::in_place(graph.ops@, graph::handle_at(i)),
    )
}

/// The numbers below `n` that `chosen` selects, in ascending order.
pub open spec fn select_below(n: nat, chosen: spec_fn(int) -> bool) -> Seq<int> {
    Seq::new(n, |i: int| i).filter(chosen)
}

/// The handles to copy back, in declaration order.
pub open spec fn targets(graph: Graph) -> Seq<TensorId> {
    select_below(graph.tensors@.len(), |i: int| write_back_at(graph, i)).map_values(
        |i: int| graph::handle_at(i),
    )
}

proof fn lemma_select_below_next(n: nat, chosen: spec_fn(int) -> bool)
    ensures
        select_below(n + 1, chosen) == if chosen(n as int) {
            select_below(n, chosen).push(n as int)
        } else {
            select_below(n, chosen)
        },
{
    reveal(Seq::filter);
    assert(Seq::new(n + 1, |i: int| i).drop_last() =~= Seq::new(n, |i: int| i));
}

/// The handles [`writes_back`] selects, in declaration order. The copy itself stays with the
/// backend.
pub fn write_back_targets(graph: &Graph) -> (ids: Vec<TensorId>)
    ensures
        ids@ == targets(*graph),
{
    let direct = graph.in_place_inputs();
    let ghost chosen = |i: int| write_back_at(*graph, i);
    let mut ids: Vec<TensorId> = Vec::new();
    let mut i: usize = 0;
    assert(select_below(0, chosen) =~= Seq::<int>::empty()) by {
        reveal(Seq::filter);
    }
    while i < graph.tensors.len()
        invariant
            i <= graph.tensors.len(),
            forall|id: TensorId| #[trigger]
                direct@.contains(id) <==> graph::in_place(graph.ops@, id),
            chosen == |i: int| write_back_at(*graph, i),
            ids@ == select_below(i as nat, chosen).map_values(|i: int| graph::handle_at(i)),
        decreases graph.tensors.len() - i,
    {
        let id = TensorId(i as u32);
        let decl = &graph.tensors[i];
        proof {
            lemma_select_below_next(i as nat, chosen);
        }
        if writes_back(decl.kind, decl.desc.dtype, id, &direct) {
            ids.push(id);
        }
        i += 1;
    }
    ids
}

/// The indices below `n` that `skip` leaves, in ascending order.
pub open spec fn live_indices(n: nat, skip: Set<usize>) -> Seq<int> {
    select_below(n, |i: int| !skip.contains(i as usize))
}

/// The walk over `ops`: each op that `skip` leaves, with its index, in graph order.
pub open spec fn live_walk(ops: Seq<Op>, skip: Set<usize>) -> Seq<(usize, Op)> {
    live_indices(ops.len(), skip).map_values(|i: int| (i as usize, ops[i]))
}

/// The entries of a list of borrowed ops.
pub open spec fn entries(list: Seq<(usize, &Op)>) -> Seq<(usize, Op)> {
    list.map_values(|entry: (usize, &Op)| (entry.0, *entry.1))
}

/// The ops the executor dispatches: `(index, op)` in graph order, with every index in `skip`
/// elided.
///
/// This is the definition of the walk. The fusion pass hands back a `skip` set of absorbed ops, and
/// anything that must stay in lockstep with the dispatch order goes by this list.
pub fn live_ops<'a>(ops: &'a [Op], skip: &HashSet<usize>) -> (list: Vec<(usize, &'a Op)>)
    ensures
        entries(list@) == live_walk(ops@, skip@),
{
    broadcast use vstd::std_specs::hash::group_hash_axioms;

    let ghost chosen = |i: int| !skip@.contains(i as usize);
    let mut list: Vec<(usize, &'a Op)> = Vec::new();
    let mut i: usize = 0;
    assert(select_below(0, chosen) =~= Seq::<int>::empty()) by {
        reveal(Seq::filter);
    }
    while i < ops.len()
        invariant
            i <= ops.len(),
            chosen == |i: int| !skip@.contains(i as usize),
            entries(list@) == select_below(i as nat, chosen).map_values(
                |i: int| (i as usize, ops@[i]),
            ),
        decreases ops.len() - i,
    {
        proof {
            lemma_select_below_next(i as nat, chosen);
        }
        if !skip.contains(&i) {
            let ghost before = list@;
            list.push((i, &ops[i]));
            assert(entries(list@) =~= entries(before).push((i, ops@[i as int])));
        }
        i += 1;
    }
    list
}

/// A backend's per-op body, as the shared walk sees it.
///
/// The implementor is a small per-forward struct that holds the backend's ambient state (device
/// handle, graph, bindings, residency).
pub trait OpDispatch {
    /// From the state `self`, dispatching the op at `idx` may answer `r` and leave the state
    /// `after`. An implementor that says nothing here leaves every answer and state open.
    open spec fn dispatched(&self, idx: usize, op: Op, r: Result<(), Error>, after: &Self) -> bool {
        true
    }

    /// Runs (or records) the op at `idx`.
    fn dispatch(&mut self, idx: usize, op: &Op) -> (r: Result<(), Error>)
        ensures
            old(self).dispatched(idx, *op, r, final(self)),
    ;
}

/// The states that a walk goes through: one dispatch from each to the next, over the entries of
/// `walk` in order. Every dispatch but the last succeeds; the last answers `r`. A walk that
/// succeeds has dispatched all of `walk`, one that fails has dispatched something.
pub open spec fn is_walk<D: OpDispatch>(
    states: Seq<D>,
    walk: Seq<(usize, Op)>,
    r: Result<(), Error>,
) -> bool {
    let steps = states.len() - 1;
    &&& 0 <= steps <= walk.len()
    &&& forall|k: int|
        #![trigger walk[k]]
        0 <= k < steps ==> states[k].dispatched(
            walk[k].0,
            walk[k].1,
            if k < steps - 1 {
                Ok(())
            } else {
                r
            },
            &states[k + 1],
        )
    &&& r is Ok ==> steps == walk.len()
    &&& r is Err ==> steps > 0
}

/// Walks `ops` in [`live_ops`] order, dispatching each through `d`, and stops at the first error.
pub fn run_ops<D: OpDispatch>(ops: &[Op], skip: &HashSet<usize>, d: &mut D) -> (r: Result<
    (),
    Error,
>)
    ensures
        exists|states: Seq<D>| #[trigger]
            is_walk(states, live_walk(ops@, skip@), r) && states.first() == *old(d)
                && states.last() == *final(d),
{
    let list = live_ops(ops, skip);
    let ghost walk = live_walk(ops@, skip@);
    let ghost mut states = seq![*d];
    let mut k: usize = 0;
    while k < list.len()
        invariant
            k <= list.len(),
            entries(list@) == walk,
            walk == live_walk(ops@, skip@),
            states.len() == k + 1,
            states.first() == *old(d),
            states.last() == *d,
            forall|j: int|
                #![trigger walk[j]]
                0 <= j < k ==> states[j].dispatched(walk[j].0, walk[j].1, Ok(()), &states[j + 1]),
        decreases list.len() - k,
    {
        assert(entries(list@)[k as int] == (list@[k as int].0, *list@[k as int].1));
        let r = d.dispatch(list[k].0, list[k].1);
        proof {
            states = states.push(*d);
        }
        if r.is_err() {
            assert(is_walk(states, walk, r));
            return r;
        }
        assert(r->Ok_0 == ());
        k += 1;
    }
    assert(is_walk(states, walk, Ok(())));
    Ok(())
}

} // verus!
