use vstd::prelude::*;

use crate::container::{
    clone_is_eq, ContainerClear, ContainerLen, ContainerRemove, SparseContainer,
};
use crate::generic_cache::GenericCache;

verus! {

broadcast use vstd::std_specs::btree::group_btree_axioms;

/// A cache for a function which uses an ordered map.
///
/// The cache takes ownership of all inputs, but only passes a reference to
/// the function, allowing it to store the input in the cache without any
/// copies or clones.
///
/// The requirements for an ordered map must be met, specifically the keys
/// must implement `Ord`, and the ordering must be a lawful total order that
/// agrees with equality. Keys must also implement `Clone`, with every clone
/// equal to its original: insert-if-absent finds the newly stored entry
/// again by a cloned key.
pub type BTreeCache<I, O, R> = GenericCache<std::collections::BTreeMap<I, O>, R>;

impl<I: core::cmp::Ord + Clone, O> SparseContainer for std::collections::BTreeMap<I, O> {
    type Input = I;

    type Output = O;

    open spec fn inv(&self) -> bool {
        &&& vstd::laws_cmp::obeys_cmp::<I>()
        &&& clone_is_eq::<I>()
        &&& self@.dom().finite()
    }

    open spec fn contents(&self) -> Map<I, O> {
        self@
    }

    fn has(&self, input: &I) -> (r: bool) {
        self.contains_key(input)
    }

    fn get(&self, input: &I) -> (r: Option<&O>) {
        self.get(input)
    }

    fn put(&mut self, input: I, output: O) -> (r: &O) {
        if !self.contains_key(&input) {
            let key = input.clone();
            self.insert(input, output);
            return self.get(&key).unwrap();
        }
        self.get(&input).unwrap()
    }
}

impl<I: core::cmp::Ord + Clone, O> ContainerLen for std::collections::BTreeMap<I, O> {
    fn len(&self) -> (r: usize) {
        self.len()
    }
}

impl<I: core::cmp::Ord + Clone, O> ContainerClear for std::collections::BTreeMap<I, O> {
    fn clear(&mut self) {
        self.clear()
    }
}

impl<I: core::cmp::Ord + Clone, O> ContainerRemove for std::collections::BTreeMap<I, O> {
    fn remove(&mut self, input: &I) -> (r: Option<O>) {
        self.remove(input)
    }
}

} // verus!
