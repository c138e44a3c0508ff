use vstd::prelude::*;

verus! {

/// A generic trait for anything that would like to back a
/// [`GenericCache`](crate::generic_cache::GenericCache), allowing easy
/// extensibility using a container not covered by this library.
///
/// The hash-backed and ordered-backed caches both use `GenericCache` under
/// the hood, by implementing this trait on the standard hash map and ordered
/// map. A container that cannot satisfy this sparse access pattern, such as
/// the dense growable array behind
/// [`VecCache`](crate::vec_cache::VecCache), instead implements
/// [`FnCache`](crate::fn_cache::FnCache) directly.
pub trait SparseContainer: Sized {
    type Input;

    type Output;

    /// Structural conditions under which the container's operations behave
    /// as specified; for a hash map, for example, that the key type hashes
    /// deterministically.
    spec fn inv(&self) -> bool;

    /// The key-value associations the container currently holds.
    spec fn contents(&self) -> Map<Self::Input, Self::Output>;

    /// Returns true if the container is holding an output associated with `input`.
    fn has(&self, input: &Self::Input) -> (r: bool)
        requires
            self.inv(),
        ensures
            r == self.contents().contains_key(*input),
    {
        self.get(input).is_some()
    }

    /// Returns the output associated with `input`, if it exists.
    fn get(&self, input: &Self::Input) -> (r: Option<&Self::Output>)
        requires
            self.inv(),
        ensures
            match r {
                Some(v) => self.contents().contains_key(*input) && *v == self.contents()[*input],
                None => !self.contents().contains_key(*input),
            },
    ;

    /// Associates `output` with `input` unless `input` is already present,
    /// and returns a reference to the stored output: the pre-existing one if
    /// there was one, the newly stored one otherwise. The freshly computed
    /// `output` is discarded on a collision, never overwriting the earlier
    /// entry.
    fn put(&mut self, input: Self::Input, output: Self::Output) -> (r: &Self::Output)
        requires
            old(self).inv(),
        ensures
            final(self).inv(),
            final(self).contents() == (if old(self).contents().contains_key(input) {
                old(self).contents()
            } else {
                old(self).contents().insert(input, output)
            }),
            *r == final(self).contents()[input],
    ;
}

/// Holds when every clone of a value of `T` is equal to the value it was
/// cloned from, so a clone may stand in for the original as a lookup key.
pub open spec fn clone_is_eq<T: Clone>() -> bool {
    forall|x: T, y: T| #[trigger] call_ensures(T::clone, (&x,), y) ==> y == x
}

/// Holds when the `Default` container of type `C` is sound and empty, as the
/// standard maps' are, so a cache built over it starts with no associations.
pub open spec fn default_is_empty<C: SparseContainer + Default>() -> bool {
    forall|c: C| #[trigger] call_ensures(C::default, (), c) ==> c.inv() && c.contents() == Map::<
        C::Input,
        C::Output,
    >::empty()
}

/// A trait to clear the container, for cases when caching may need to be
/// temporary during some calculations, but may grow unbounded over the
/// course of the program otherwise.
pub trait ContainerClear: SparseContainer {
    /// Clears the cache, removing all key-value pairs.
    /// Keeps the allocated memory for reuse.
    fn clear(&mut self)
        requires
            old(self).inv(),
        ensures
            final(self).inv(),
            final(self).contents() == Map::<Self::Input, Self::Output>::empty(),
    ;
}

/// A trait to let you see how many values the container is holding.
pub trait ContainerLen: SparseContainer {
    /// Returns the number of elements in the container.
    fn len(&self) -> (r: usize)
        requires
            self.inv(),
        ensures
            self.contents().dom().finite(),
            r == self.contents().dom().len(),
    ;
}

/// A trait to reserve space in a container, in case you know how many values
/// are about to enter and can avoid reallocations by reserving more space at
/// once.
pub trait ContainerReserve: SparseContainer {
    /// Reserves capacity for at least `additional` more elements
    /// to be inserted in the cache. The collection may
    /// reserve more space to avoid frequent reallocations.
    fn reserve(&mut self, additional: usize)
        requires
            old(self).inv(),
        ensures
            final(self).inv(),
            final(self).contents() == old(self).contents(),
    ;
}

/// A trait to remove items from a container, to prevent growth without bound.
pub trait ContainerRemove: SparseContainer {
    /// Removes the input from the cache, returning any value
    /// if the input was previously in the cache.
    fn remove(&mut self, input: &Self::Input) -> (r: Option<Self::Output>)
        requires
            old(self).inv(),
        ensures
            final(self).inv(),
            final(self).contents() == old(self).contents().remove(*input),
            match r {
                Some(v) => old(self).contents().contains_key(*input) && v == old(self).contents()[*input],
                None => !old(self).contents().contains_key(*input),
            },
    ;
}

} // verus!
