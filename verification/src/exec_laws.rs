//! What holds of the residency contract and of the op walk, whatever the graph.

use crate::error::Error;
use crate::exec::{
    is_walk, live_indices, live_walk, provision_at, select_below, targets, write_back_at,
    OpDispatch, Provision,
};
use crate::graph;
use crate::graph::{Graph, Op, TensorKind};
use crate::tensor::DType;
use vstd::prelude::*;

verus! {

/// A value that is copied back after the walk was provided before it: what is written back is never
/// a handle that the setup skipped.
pub proof fn law_written_back_is_provided(graph: Graph, i: int)
    requires
        0 <= i < graph.tensors@.len(),
        write_back_at(graph, i),
    ensures
        provision_at(graph, i) != Provision::Skip,
{
}

/// An input that the ops reach in place is neither loaded before the walk nor copied back after it,
/// whatever its element type.
pub proof fn law_in_place_is_left_alone(graph: Graph, i: int)
    requires
        0 <= i < graph.tensors@.len(),
        graph.tensors@[i].kind == TensorKind::Input,
        graph::in_place(graph.ops@, graph::handle_at(i)),
    ensures
        provision_at(graph, i) == Provision::Skip,
        !write_back_at(graph, i),
{
}

/// A weight is neither provided nor copied back.
pub proof fn law_weight_is_left_alone(graph: Graph, i: int)
    requires
        0 <= i < graph.tensors@.len(),
        graph.tensors@[i].kind == TensorKind::Weight,
    ensures
        provision_at(graph, i) == Provision::Skip,
        !write_back_at(graph, i),
{
}

/// An input that is not f32 is read-only: it is never copied back.
pub proof fn law_other_input_is_read_only(graph: Graph, i: int)
    requires
        0 <= i < graph.tensors@.len(),
        graph.tensors@[i].kind == TensorKind::Input,
        graph.tensors@[i].desc.dtype != DType::F32,
    ensures
        !write_back_at(graph, i),
{
}

/// An output starts zeroed and is always copied back.
pub proof fn law_output_is_copied_back(graph: Graph, i: int)
    requires
        0 <= i < graph.tensors@.len(),
        graph.tensors@[i].kind == TensorKind::Output,
    ensures
        provision_at(graph, i) == Provision::Zero,
        write_back_at(graph, i),
{
}

/// `select_below` lists exactly the chosen numbers, each once, in ascending order.
pub proof fn lemma_select_below(n: nat, chosen: spec_fn(int) -> bool)
    ensures
        forall|k: int|
            0 <= k < select_below(n, chosen).len() ==> {
                let i = #[trigger] select_below(n, chosen)[k];
                0 <= i < n && chosen(i)
            },
        forall|k: int, l: int|
            0 <= k < l < select_below(n, chosen).len() ==> select_below(n, chosen)[k]
                < select_below(n, chosen)[l],
        forall|i: int| 0 <= i < n && chosen(i) ==> #[trigger] select_below(n, chosen).contains(i),
    decreases n,
{
    reveal(Seq::filter);
    let all = Seq::new(n, |i: int| i);
    if n > 0 {
        let m = (n - 1) as nat;
        let below = select_below(m, chosen);
        assert(all.drop_last() =~= Seq::new(m, |i: int| i));
        lemma_select_below(m, chosen);
        assert forall|i: int| 0 <= i < n && chosen(i) implies #[trigger] select_below(
            n,
            chosen,
        ).contains(i) by {
            if i == m {
                assert(select_below(n, chosen)[below.len() as int] == i);
            } else {
                assert(below.contains(i));
                let k = choose|k: int| 0 <= k < below.len() && below[k] == i;
                assert(select_below(n, chosen)[k] == i);
            }
        }
    }
}

/// The handles copied back are those of exactly the tensors to copy back, in declaration order and
/// each once.
pub proof fn law_targets(graph: Graph)
    requires
        graph.tensors@.len() <= u32::MAX + 1,
    ensures
        forall|i: int|
            0 <= i < graph.tensors@.len() ==> (#[trigger] targets(graph).contains(
                graph::handle_at(i),
            ) <==> write_back_at(graph, i)),
        forall|k: int|
            0 <= k < targets(graph).len() ==> (#[trigger] targets(graph)[k]).0
                < graph.tensors@.len(),
        forall|k: int, l: int|
            0 <= k < l < targets(graph).len() ==> (#[trigger] targets(graph)[k]).0 < (
            #[trigger] targets(graph)[l]).0,
{
    let chosen = |i: int| write_back_at(graph, i);
    let n = graph.tensors@.len();
    let indices = select_below(n, chosen);
    lemma_select_below(n, chosen);
    assert(targets(graph) =~= indices.map_values(|i: int| graph::handle_at(i)));
    assert forall|i: int| 0 <= i < n implies (#[trigger] targets(graph).contains(
        graph::handle_at(i),
    ) <==> write_back_at(graph, i)) by {
        if targets(graph).contains(graph::handle_at(i)) {
            let k = choose|k: int|
                0 <= k < targets(graph).len() && targets(graph)[k] == graph::handle_at(i);
            assert(chosen(indices[k]));
        }
        if write_back_at(graph, i) {
            assert(chosen(i));
            assert(indices.contains(i));
            let k = choose|k: int| 0 <= k < indices.len() && indices[k] == i;
            assert(targets(graph)[k] == graph::handle_at(i));
        }
    }
}

/// The walk keeps graph order and the original indices: entry by entry the index rises, and each
/// entry holds the op that stands at its index.
pub proof fn law_walk_keeps_order_and_index(ops: Seq<Op>, skip: Set<usize>)
    requires
        ops.len() <= usize::MAX,
    ensures
        forall|k: int|
            0 <= k < live_walk(ops, skip).len() ==> {
                let entry = #[trigger] live_walk(ops, skip)[k];
                entry.0 < ops.len() && entry.1 == ops[entry.0 as int]
            },
        forall|k: int, l: int|
            0 <= k < l < live_walk(ops, skip).len() ==> (#[trigger] live_walk(ops, skip)[k]).0 < (
            #[trigger] live_walk(ops, skip)[l]).0,
{
    let chosen = |i: int| !skip.contains(i as usize);
    lemma_select_below(ops.len(), chosen);
    assert(live_indices(ops.len(), skip) == select_below(ops.len(), chosen));
}

/// An op is in the walk exactly where its index is not skipped.
pub proof fn law_walk_elides_exactly_the_skipped(ops: Seq<Op>, skip: Set<usize>, i: int)
    requires
        ops.len() <= usize::MAX,
        0 <= i < ops.len(),
    ensures
        live_walk(ops, skip).contains((i as usize, ops[i])) <==> !skip.contains(i as usize),
{
    let chosen = |i: int| !skip.contains(i as usize);
    let indices = live_indices(ops.len(), skip);
    let walk = live_walk(ops, skip);
    lemma_select_below(ops.len(), chosen);
    assert(indices == select_below(ops.len(), chosen));
    if walk.contains((i as usize, ops[i])) {
        let k = choose|k: int| 0 <= k < walk.len() && walk[k] == (i as usize, ops[i]);
        assert(chosen(indices[k]));
    }
    if !skip.contains(i as usize) {
        assert(chosen(i));
        assert(indices.contains(i));
        let k = choose|k: int| 0 <= k < indices.len() && indices[k] == i;
        assert(walk[k] == (i as usize, ops[i]));
    }
}

/// With nothing skipped the walk is the whole graph.
pub proof fn law_walk_without_skips(ops: Seq<Op>)
    ensures
        live_walk(ops, Set::empty()) == Seq::new(ops.len(), |i: int| (i as usize, ops[i])),
{
    lemma_select_all(ops.len(), |i: int| !Set::<usize>::empty().contains(i as usize));
    assert(live_walk(ops, Set::empty()) =~= Seq::new(ops.len(), |i: int| (i as usize, ops[i])));
}

proof fn lemma_select_all(n: nat, chosen: spec_fn(int) -> bool)
    requires
        forall|i: int| 0 <= i < n ==> #[trigger] chosen(i),
    ensures
        select_below(n, chosen) == Seq::new(n, |i: int| i),
    decreases n,
{
    reveal(Seq::filter);
    if n > 0 {
        let m = (n - 1) as nat;
        assert(Seq::new(n, |i: int| i).drop_last() =~= Seq::new(m, |i: int| i));
        lemma_select_all(m, chosen);
        assert(select_below(n, chosen) =~= Seq::new(n, |i: int| i));
    } else {
        assert(select_below(n, chosen) =~= Seq::new(n, |i: int| i));
    }
}

/// A walk over nothing succeeds and leaves the state as it was.
pub proof fn law_empty_walk<D: OpDispatch>(
    states: Seq<D>,
    walk: Seq<(usize, Op)>,
    r: Result<(), Error>,
)
    requires
        walk.len() == 0,
        is_walk(states, walk, r),
    ensures
        r is Ok,
        states.first() == states.last(),
{
}

/// A walk that succeeds has made exactly one dispatch per entry, whatever the entry's op, each from
/// the state that the one before left, and each has succeeded.
pub proof fn law_successful_walk_dispatches_all<D: OpDispatch>(
    states: Seq<D>,
    walk: Seq<(usize, Op)>,
)
    requires
        is_walk(states, walk, Ok(())),
    ensures
        states.len() == walk.len() + 1,
        forall|k: int|
            #![trigger walk[k]]
            0 <= k < walk.len() ==> states[k].dispatched(
                walk[k].0,
                walk[k].1,
                Ok(()),
                &states[k + 1],
            ),
{
}

/// A walk that fails stops at the failing op: up to that op it is a walk that succeeds, the op
/// answers the error, and nothing is dispatched after it.
pub proof fn law_failed_walk_stops<D: OpDispatch>(
    states: Seq<D>,
    walk: Seq<(usize, Op)>,
    r: Result<(), Error>,
)
    requires
        r is Err,
        is_walk(states, walk, r),
    ensures
        2 <= states.len() <= walk.len() + 1,
        is_walk(states.drop_last(), walk.take(states.len() - 2), Ok(())),
        states[states.len() - 2].dispatched(
            walk[states.len() - 2].0,
            walk[states.len() - 2].1,
            r,
            &states.last(),
        ),
{
    let steps = states.len() - 1;
    let done = walk.take(steps - 1);
    assert forall|k: int|
        #![trigger done[k]]
        0 <= k < steps - 1 implies states.drop_last()[k].dispatched(
        done[k].0,
        done[k].1,
        Ok(()),
        &states.drop_last()[k + 1],
    ) by {
        assert(walk[k] == done[k]);
    }
    assert(walk[steps - 1] == walk[steps - 1]);
}

/// A walk that succeeds over one list, followed by a walk over another from where the first ended,
/// is a walk over both.
pub proof fn law_walks_chain<D: OpDispatch>(
    first: Seq<D>,
    head: Seq<(usize, Op)>,
    second: Seq<D>,
    tail: Seq<(usize, Op)>,
    r: Result<(), Error>,
)
    requires
        is_walk(first, head, Ok(())),
        is_walk(second, tail, r),
        first.last() == second.first(),
    ensures
        is_walk(first.drop_last() + second, head + tail, r),
{
    let states = first.drop_last() + second;
    let walk = head + tail;
    let steps = states.len() - 1;
    if r is Ok {
        assert(r->Ok_0 == ());
    }
    assert forall|k: int|
        #![trigger walk[k]]
        0 <= k < steps implies states[k].dispatched(
        walk[k].0,
        walk[k].1,
        if k < steps - 1 {
            Ok(())
        } else {
            r
        },
        &states[k + 1],
    ) by {
        if k < head.len() {
            assert(walk[k] == head[k]);
        } else {
            assert(walk[k] == tail[k - head.len()]);
        }
    }
}

/// A walk may be cut anywhere: what was dispatched up to the cut is a walk that succeeds, and what
/// follows is a walk from where the first ended, with the answer of the whole.
pub proof fn law_walk_cuts<D: OpDispatch>(
    states: Seq<D>,
    walk: Seq<(usize, Op)>,
    r: Result<(), Error>,
    cut: int,
)
    requires
        is_walk(states, walk, r),
        0 <= cut < states.len(),
        r is Err ==> cut < states.len() - 1,
    ensures
        is_walk(states.take(cut + 1), walk.take(cut), Ok(())),
        is_walk(states.skip(cut), walk.skip(cut), r),
        states.take(cut + 1).last() == states.skip(cut).first(),
{
    let steps = states.len() - 1;
    let head = walk.take(cut);
    let tail = walk.skip(cut);
    if r is Ok {
        assert(r->Ok_0 == ());
    }
    assert forall|k: int|
        #![trigger head[k]]
        0 <= k < cut implies states.take(cut + 1)[k].dispatched(
        head[k].0,
        head[k].1,
        Ok(()),
        &states.take(cut + 1)[k + 1],
    ) by {
        assert(walk[k] == head[k]);
    }
    assert forall|k: int|
        #![trigger tail[k]]
        0 <= k < steps - cut implies states.skip(cut)[k].dispatched(
        tail[k].0,
        tail[k].1,
        if k < steps - cut - 1 {
            Ok(())
        } else {
            r
        },
        &states.skip(cut)[k + 1],
    ) by {
        assert(walk[cut + k] == tail[k]);
    }
}

/// Skipping more only removes entries: the walk under a larger skip set is the smaller one's
/// without the entries at the indices that were added.
pub proof fn law_skipping_more(ops: Seq<Op>, skip: Set<usize>, more: Set<usize>)
    requires
        ops.len() <= usize::MAX,
        skip.subset_of(more),
    ensures
        live_walk(ops, more) == live_walk(ops, skip).filter(
            |entry: (usize, Op)| !more.contains(entry.0),
        ),
{
    lemma_skipping_more(ops, skip, more, ops.len());
}

proof fn lemma_skipping_more(ops: Seq<Op>, skip: Set<usize>, more: Set<usize>, n: nat)
    requires
        n <= ops.len() <= usize::MAX,
        skip.subset_of(more),
    ensures
        live_indices(n, more).map_values(|i: int| (i as usize, ops[i])) == live_indices(
            n,
            skip,
        ).map_values(|i: int| (i as usize, ops[i])).filter(
            |entry: (usize, Op)| !more.contains(entry.0),
        ),
    decreases n,
{
    reveal(Seq::filter);
    let entry_at = |i: int| (i as usize, ops[i]);
    let kept = |entry: (usize, Op)| !more.contains(entry.0);
    if n == 0 {
        assert(live_indices(0, more).map_values(entry_at) =~= live_indices(0, skip).map_values(
            entry_at,
        ).filter(kept));
    } else {
        let m = (n - 1) as nat;
        let i = m as int;
        lemma_skipping_more(ops, skip, more, m);
        assert(Seq::new(n, |i: int| i).drop_last() =~= Seq::new(m, |i: int| i));
        let fewer = live_indices(m, skip).map_values(entry_at);
        if !skip.contains(i as usize) {
            let next = live_indices(n, skip).map_values(entry_at);
            assert(next =~= fewer.push(entry_at(i)));
            assert(next.drop_last() =~= fewer);
        }
        if !more.contains(i as usize) {
            assert(live_indices(n, more).map_values(entry_at) =~= live_indices(
                m,
                more,
            ).map_values(entry_at).push(entry_at(i)));
        }
    }
}

} // verus!
