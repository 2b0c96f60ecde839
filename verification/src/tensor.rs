//! Tensor handles, element types and descriptors.

use std::collections::HashSet;
use vstd::prelude::*;

verus! {

/// A handle to a tensor of a graph: its index in declaration order.
#[derive(Clone, Copy, PartialEq, Eq, Structural, Debug)]
pub struct TensorId(pub u32);

/// The element type of a tensor.
#[derive(Clone, Copy, PartialEq, Eq, Structural, Debug)]
pub enum DType {
    F32,
    F16,
    Bf16,
    I32,
    Q4K,
}

/// Shape and element type of a tensor.
#[derive(Clone, PartialEq, Eq, Debug)]
pub struct TensorDesc {
    pub shape: Vec<usize>,
    pub dtype: DType,
}

impl TensorDesc {
    pub fn new(shape: Vec<usize>, dtype: DType) -> (desc: TensorDesc)
        ensures
            desc.shape == shape,
            desc.dtype == dtype,
    {
        TensorDesc { shape, dtype }
    }
}

/// A set of tensor handles.
pub struct TensorSet {
    indices: HashSet<u32>,
}

impl View for TensorSet {
    type V = Set<TensorId>;

    closed spec fn view(&self) -> Set<TensorId> {
        Set::new(|id: TensorId| self.indices@.contains(id.0))
    }
}

impl TensorSet {
    /// The set that holds nothing.
    pub fn new() -> (set: TensorSet)
        ensures
            set@ == Set::<TensorId>::empty(),
    {
        let set = TensorSet { indices: HashSet::new() };
        assert(set@ =~= Set::<TensorId>::empty());
        set
    }

    /// Adds one handle.
    pub fn insert(&mut self, id: TensorId)
        ensures
            final(self)@ == old(self)@.insert(id),
    {
        broadcast use vstd::std_specs::hash::group_hash_axioms;

        self.indices.insert(id.0);
        assert(self@ =~= old(self)@.insert(id));
    }

    /// Is `id` in the set?
    pub fn contains(&self, id: &TensorId) -> (found: bool)
        ensures
            found == self@.contains(*id),
    {
        broadcast use vstd::std_specs::hash::group_hash_axioms;

        self.indices.contains(&id.0)
    }
}

} // verus!
