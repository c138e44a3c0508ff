use vstd::prelude::*;

use crate::container::clone_is_eq;

verus! {

/// The generic trait for all caches.
///
/// This trait is implemented on all caches, so a function can be written
/// against `&mut impl FnCache<u32, u32>` and work with every cache in this
/// crate. Each implementor describes itself through four spec functions:
/// whether it is usable (`valid`), what it holds (`stored`), which inputs it
/// may be asked for (`ready`), and which outputs its rule allows
/// (`admissible`).
pub trait FnCache<I, O> {
    /// The cache is usable: its container is structurally sound and every
    /// stored association is one its rule allows.
    spec fn valid(&self) -> bool;

    /// The key-value associations currently stored.
    spec fn stored(&self) -> Map<I, O>;

    /// The inputs retrieval may be asked for.
    spec fn ready(&self, i: I) -> bool;

    /// The outputs the cache's rule may produce for an input.
    spec fn admissible(&self, i: I, o: O) -> bool;

    /// Retrieve a value stored in the cache. If the value does not yet
    /// exist in the cache, the function is called, and the result is added
    /// to the cache before returning it. Whatever was stored before stays
    /// stored, unchanged; a retrieval of a present key changes nothing.
    fn get(&mut self, input: I) -> (r: &O)
        requires
            old(self).valid(),
            old(self).ready(input),
        ensures
            final(self).valid(),
            old(self).stored().submap_of(final(self).stored()),
            final(self).stored().contains_key(input),
            *r == final(self).stored()[input],
            old(self).admissible(input, *r),
            old(self).stored().contains_key(input) ==> final(self).stored() == old(self).stored(),
            forall|j: I| old(self).ready(j) ==> #[trigger] final(self).ready(j),
            forall|j: I, o: O|
                #[trigger] final(self).admissible(j, o) == old(self).admissible(j, o),
    ;
}

/// The generic trait for caches which support getting multiple values.
///
/// This trait has an additional restriction, that `I` is [`Clone`], and its
/// contract further asks that cloning a key gives back an equal key, so a
/// clone may stand in for the original during the second lookup pass.
pub trait FnCacheMany<I: Clone, O>: FnCache<I, O> {
    /// Retrieve multiple values stored in the cache, in order from left to
    /// right. If any of the values do not yet exist, the function is
    /// called, and the result is added to the cache before returning them.
    ///
    /// This is helpful for cases which may require a recursive definition
    /// that uses multiple values at once.
    fn get_many(&mut self, inputs: Vec<I>) -> (rs: Vec<&O>)
        requires
            old(self).valid(),
            clone_is_eq::<I>(),
            forall|t: int| 0 <= t < inputs@.len() ==> old(self).ready(#[trigger] inputs@[t]),
        ensures
            final(self).valid(),
            old(self).stored().submap_of(final(self).stored()),
            rs@.len() == inputs@.len(),
            forall|t: int|
                0 <= t < inputs@.len() ==> final(self).stored().contains_key(
                    #[trigger] inputs@[t],
                ),
            forall|t: int|
                0 <= t < rs@.len() ==> *(#[trigger] rs@[t]) == final(self).stored()[inputs@[t]]
                    && old(self).admissible(inputs@[t], *rs@[t]),
            forall|j: I| old(self).ready(j) ==> #[trigger] final(self).ready(j),
            forall|j: I, o: O|
                #[trigger] final(self).admissible(j, o) == old(self).admissible(j, o),
    ;
}

} // verus!
