use vstd::prelude::*;

use crate::container::clone_is_eq;

verus! {

broadcast use vstd::std_specs::hash::group_hash_axioms;

/// The capability set a backing store must offer a
/// [`RawCache`](crate::raw_cache::RawCache): existence check, lookup, and
/// insert-if-absent.
pub trait Cache: Sized {
    type Input;

    type Output;

    /// Structural conditions under which the store's operations behave as
    /// specified; for a hash map, for example, that the key type hashes
    /// deterministically.
    spec fn inv(&self) -> bool;

    /// The key-value associations the store currently holds.
    spec fn contents(&self) -> Map<Self::Input, Self::Output>;

    /// Returns true if a value is stored for `input`.
    fn has(&self, input: &Self::Input) -> (r: bool)
        requires
            self.inv(),
        ensures
            r == self.contents().contains_key(*input),
    ;

    /// Returns the value stored for `input`, if there is one.
    fn get(&self, input: &Self::Input) -> (r: Option<&Self::Output>)
        requires
            self.inv(),
        ensures
            match r {
                Some(v) => self.contents().contains_key(*input) && *v == self.contents()[*input],
                None => !self.contents().contains_key(*input),
            },
    ;

    /// Stores `output` under `input` unless `input` is already present, and
    /// returns a reference to the stored value: the pre-existing one if
    /// there was one, the newly stored one otherwise. The freshly computed
    /// `output` is discarded on a collision, never overwriting the earlier
    /// entry.
    fn put(&mut self, input: Self::Input, output: Self::Output) -> (r: &Self::Output)
        requires
            old(self).inv(),
        ensures
            final(self).inv(),
            final(self).contents() == (if old(self).contents().contains_key(input) {
                old(self).contents()
            } else {
                old(self).contents().insert(input, output)
            }),
            *r == final(self).contents()[input],
    ;
}

/// The optional capability of reporting how many values are stored.
pub trait CacheLen: Cache {
    fn len(&self) -> (r: usize)
        requires
            self.inv(),
        ensures
            self.contents().dom().finite(),
            r == self.contents().dom().len(),
    ;
}

/// The optional capability of removing every stored value at once.
pub trait CacheClear: Cache {
    fn clear(&mut self)
        requires
            old(self).inv(),
        ensures
            final(self).inv(),
            final(self).contents() == Map::<Self::Input, Self::Output>::empty(),
    ;
}

/// The optional capability of reserving room for more values: a capacity
/// hint only, with no effect on the stored associations.
pub trait CacheReserve: Cache {
    fn reserve(&mut self, additional: usize)
        requires
            old(self).inv(),
        ensures
            final(self).inv(),
            final(self).contents() == old(self).contents(),
    ;
}

/// The optional capability of removing a single stored value.
pub trait CacheRemove: Cache {
    fn remove(&mut self, input: &Self::Input) -> (r: Option<Self::Output>)
        requires
            old(self).inv(),
        ensures
            final(self).inv(),
            final(self).contents() == old(self).contents().remove(*input),
            match r {
                Some(v) => old(self).contents().contains_key(*input) && v == old(
                    self,
                ).contents()[*input],
                None => !old(self).contents().contains_key(*input),
            },
    ;
}

/// Holds when the `Default` store of type `C` is sound and empty, as the
/// standard maps' are, so a cache built over it starts with no associations.
pub open spec fn default_is_empty_store<C: Cache + Default>() -> bool {
    forall|c: C| #[trigger] call_ensures(C::default, (), c) ==> c.inv() && c.contents() == Map::<
        C::Input,
        C::Output,
    >::empty()
}

impl<I: core::cmp::Eq + core::hash::Hash + Clone, O, S: core::hash::BuildHasher> Cache for std::collections::HashMap<I, O, S> {
    type Input = I;

    type Output = O;

    open spec fn inv(&self) -> bool {
        &&& vstd::std_specs::hash::obeys_key_model::<I>()
        &&& vstd::std_specs::hash::builds_valid_hashers::<S>()
        &&& clone_is_eq::<I>()
        &&& self@.dom().finite()
    }

    open spec fn contents(&self) -> Map<I, O> {
        self@
    }

    fn has(&self, input: &I) -> (r: bool) {
        self.contains_key(input)
    }

    fn get(&self, input: &I) -> (r: Option<&O>) {
        self.get(input)
    }

    fn put(&mut self, input: I, output: O) -> (r: &O) {
        if !self.contains_key(&input) {
            let key = input.clone();
            self.insert(input, output);
            return self.get(&key).unwrap();
        }
        self.get(&input).unwrap()
    }
}

impl<I: core::cmp::Eq + core::hash::Hash + Clone, O, S: core::hash::BuildHasher> CacheLen for std::collections::HashMap<I, O, S> {
    fn len(&self) -> (r: usize) {
        self.len()
    }
}

impl<I: core::cmp::Eq + core::hash::Hash + Clone, O, S: core::hash::BuildHasher> CacheClear for std::collections::HashMap<I, O, S> {
    fn clear(&mut self) {
        self.clear()
    }
}

impl<I: core::cmp::Eq + core::hash::Hash + Clone, O, S: core::hash::BuildHasher> CacheReserve for std::collections::HashMap<I, O, S> {
    fn reserve(&mut self, additional: usize) {
        self.reserve(additional)
    }
}

impl<I: core::cmp::Eq + core::hash::Hash + Clone, O, S: core::hash::BuildHasher> CacheRemove for std::collections::HashMap<I, O, S> {
    fn remove(&mut self, input: &I) -> (r: Option<O>) {
        self.remove(input)
    }
}

} // verus!
