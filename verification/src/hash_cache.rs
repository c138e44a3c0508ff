use vstd::prelude::*;

use crate::container::{
    clone_is_eq, ContainerClear, ContainerLen, ContainerRemove, ContainerReserve, SparseContainer,
};
use crate::generic_cache::{closed_under, consistent, GenericCache, RecursiveRule, Simple};
use std::collections::HashMap;

verus! {

broadcast use vstd::std_specs::hash::group_hash_axioms;

/// Relies on `std::collections::HashMap::with_hasher`: it creates an empty
/// map that will use the given hash builder, so it holds no associations.
pub assume_specification<K, V, S>[ HashMap::<K, V, S>::with_hasher ](hash_builder: S) -> (m: HashMap<K, V, S>)
    ensures
        forall|k: K| !m@.contains_key(k),
;

impl<I: core::cmp::Eq + core::hash::Hash + Clone, O, S: core::hash::BuildHasher> SparseContainer for std::collections::HashMap<I, O, S> {
    type Input = I;

    type Output = O;

    open spec fn inv(&self) -> bool {
        &&& vstd::std_specs::hash::obeys_key_model::<I>()
        &&& vstd::std_specs::hash::builds_valid_hashers::<S>()
        &&& clone_is_eq::<I>()
        &&& self@.dom().finite()
    }

    open spec fn contents(&self) -> Map<I, O> {
        self@
    }

    fn has(&self, input: &I) -> (r: bool) {
        self.contains_key(input)
    }

    fn get(&self, input: &I) -> (r: Option<&O>) {
        self.get(input)
    }

    fn put(&mut self, input: I, output: O) -> (r: &O) {
        if !self.contains_key(&input) {
            let key = input.clone();
            self.insert(input, output);
            return self.get(&key).unwrap();
        }
        self.get(&input).unwrap()
    }
}

impl<I: core::cmp::Eq + core::hash::Hash + Clone, O, S: core::hash::BuildHasher> ContainerLen for std::collections::HashMap<I, O, S> {
    fn len(&self) -> (r: usize) {
        self.len()
    }
}

impl<I: core::cmp::Eq + core::hash::Hash + Clone, O, S: core::hash::BuildHasher> ContainerClear for std::collections::HashMap<I, O, S> {
    fn clear(&mut self) {
        self.clear()
    }
}

impl<I: core::cmp::Eq + core::hash::Hash + Clone, O, S: core::hash::BuildHasher> ContainerReserve for std::collections::HashMap<I, O, S> {
    fn reserve(&mut self, additional: usize) {
        self.reserve(additional)
    }
}

impl<I: core::cmp::Eq + core::hash::Hash + Clone, O, S: core::hash::BuildHasher> ContainerRemove for std::collections::HashMap<I, O, S> {
    fn remove(&mut self, input: &I) -> (r: Option<O>) {
        self.remove(input)
    }
}

/// A cache for a function which uses a hash map.
///
/// The cache takes ownership of all inputs, but only passes a reference to
/// the function, allowing it to store the input in the cache without any
/// copies or clones.
///
/// The requirements for a hash map must be met, specifically the keys must
/// implement `Eq` and `Hash`, and hashing must be a deterministic function
/// of the key, so that equal keys hash alike. Keys must also implement
/// `Clone`, with every clone equal to its original: insert-if-absent finds
/// the newly stored entry again by a cloned key.
#[verifier::reject_recursive_types(S)]
pub struct HashCache<
    I: core::cmp::Eq + core::hash::Hash + Clone,
    O,
    R: RecursiveRule<std::collections::HashMap<I, O, S>>,
    S: core::hash::BuildHasher = std::hash::RandomState,
> {
    raw: GenericCache<std::collections::HashMap<I, O, S>, R>,
}

impl<
    I: core::cmp::Eq + core::hash::Hash + Clone,
    O,
    R: RecursiveRule<std::collections::HashMap<I, O, S>>,
    S: core::hash::BuildHasher,
> HashCache<I, O, R, S> {
    /// The rule being memoized.
    pub closed spec fn rule(&self) -> R {
        self.raw.rule()
    }

    /// The backing hash map.
    pub closed spec fn container(&self) -> std::collections::HashMap<I, O, S> {
        self.raw.container()
    }

    /// The key-value associations currently stored.
    pub closed spec fn contents(&self) -> Map<I, O> {
        self.raw.contents()
    }

    /// The cache is usable: the key type hashes deterministically and every
    /// stored association is one the rule allows.
    pub open spec fn wf(&self) -> bool {
        &&& self.container().inv()
        &&& consistent(self.contents(), |k, v| self.rule().rel(k, v))
    }

    /// How one retrieval steps the cache from `c0` to `c1` returning `r`:
    /// the statement of [`Self::get`]'s effect.
    pub open spec fn get_post(c0: Self, input: I, c1: Self, r: O) -> bool {
        &&& c1.wf()
        &&& c1.rule() == c0.rule()
        &&& c0.contents().submap_of(c1.contents())
        &&& c1.contents().contains_key(input)
        &&& r == c1.contents()[input]
        &&& c0.rule().rel(input, r)
        &&& (closed_under(c0.contents(), |k| c0.rule().installs(k)) ==> closed_under(
            c1.contents(),
            |k| c0.rule().installs(k),
        ))
        &&& (closed_under(c0.contents(), |k| c0.rule().installs(k)) ==> (forall|k: I|
            #[trigger] c0.rule().installs(input).contains(k) ==> c1.contents().contains_key(k)))
        &&& (c0.contents().contains_key(input) ==> c1.contents() == c0.contents())
        &&& (!c0.rule().touches_cache() && !c0.contents().contains_key(input)
            ==> c1.contents() == c0.contents().insert(input, r))
    }

    /// How a sequence of retrievals, one per element of `inputs` from left
    /// to right, steps the cache from `c0` to `c1`.
    pub open spec fn gets_post(c0: Self, inputs: Seq<I>, c1: Self) -> bool
        decreases inputs.len(),
    {
        if inputs.len() == 0 {
            c1 == c0
        } else {
            exists|mid: Self, r: O|
                #[trigger] Self::get_post(c0, inputs[0], mid, r) && Self::gets_post(
                    mid,
                    inputs.skip(1),
                    c1,
                )
        }
    }

    /// Create a `HashCache` with the given hash builder and a recursive
    /// rule.
    pub fn recursive_with_hasher(hash_builder: S, f: R) -> (r: Self)
        requires
            vstd::std_specs::hash::obeys_key_model::<I>(),
            vstd::std_specs::hash::builds_valid_hashers::<S>(),
            clone_is_eq::<I>(),
        ensures
            r.wf(),
            r.contents() == Map::<I, O>::empty(),
            closed_under(r.contents(), |k| r.rule().installs(k)),
            r.rule() == f,
    {
        let map = HashMap::with_hasher(hash_builder);
        proof {
            assert(map@ =~= Map::<I, O>::empty());
        }
        HashCache { raw: GenericCache::recursive_with_cache(map, f) }
    }

    /// Get a reference to the underlying hash map, letting you use functions
    /// exclusive to it, as long as they only need `&self`.
    pub fn cache(&self) -> (r: &std::collections::HashMap<I, O, S>)
        ensures
            r@ == self.contents(),
    {
        self.raw.cache()
    }

    /// Retrieve the value for `input`, computing and storing it first if it
    /// is not present. If the rule's own lookups already installed a value
    /// for `input` while it ran, the freshly computed value is discarded and
    /// the earlier entry returned unchanged.
    pub fn get(&mut self, input: I) -> (r: &O)
        requires
            old(self).wf(),
            old(self).rule().pre(input),
        ensures
            Self::get_post(*old(self), input, *final(self), *r),
    {
        self.raw.get(input)
    }

    /// Retrieve the values for `inputs`, in order from left to right,
    /// computing and storing any that are missing, then hand back references
    /// positionally corresponding to `inputs`, collected once all
    /// retrievals are done.
    pub fn get_many(&mut self, inputs: Vec<I>) -> (rs: Vec<&O>)
        requires
            old(self).wf(),
            forall|t: int| 0 <= t < inputs@.len() ==> old(self).rule().pre(#[trigger] inputs@[t]),
        ensures
            final(self).wf(),
            final(self).rule() == old(self).rule(),
            old(self).contents().submap_of(final(self).contents()),
            Self::gets_post(*old(self), inputs@, *final(self)),
            rs@.len() == inputs@.len(),
            forall|t: int|
                0 <= t < inputs@.len() ==> final(self).contents().contains_key(
                    #[trigger] inputs@[t],
                ),
            forall|t: int|
                0 <= t < rs@.len() ==> *(#[trigger] rs@[t]) == final(self).contents()[inputs@[t]]
                    && old(self).rule().rel(inputs@[t], *rs@[t]),
            closed_under(old(self).contents(), |k| old(self).rule().installs(k))
                ==> closed_under(final(self).contents(), |k| old(self).rule().installs(k)),
            closed_under(old(self).contents(), |k| old(self).rule().installs(k)) ==> (forall|
                t: int,
                k: I,
            |
                0 <= t < inputs@.len() && #[trigger] old(self).rule().installs(
                    inputs@[t],
                ).contains(k) ==> final(self).contents().contains_key(k)),
    {
        proof {
            broadcast use lemma_lift_gets_post_auto;

        }
        self.raw.get_many(inputs)
    }

    /// Returns the number of associations in the cache.
    pub fn len(&self) -> (r: usize)
        requires
            self.wf(),
        ensures
            self.contents().dom().finite(),
            r == self.contents().dom().len(),
    {
        self.raw.len()
    }

    /// Clears the cache, removing all key-value pairs.
    /// Keeps the allocated memory for reuse.
    pub fn clear(&mut self)
        requires
            old(self).wf(),
        ensures
            final(self).wf(),
            final(self).rule() == old(self).rule(),
            final(self).contents() == Map::<I, O>::empty(),
    {
        self.raw.clear()
    }

    /// Reserves capacity for at least `additional` more associations: a
    /// capacity hint only, the stored associations are untouched.
    pub fn reserve(&mut self, additional: usize)
        requires
            old(self).wf(),
        ensures
            final(self).wf(),
            final(self).rule() == old(self).rule(),
            final(self).contents() == old(self).contents(),
    {
        self.raw.reserve(additional)
    }

    /// Removes the input from the cache, returning its value if the input
    /// was previously in the cache, and an absent result otherwise, in which
    /// case nothing changes.
    pub fn remove(&mut self, input: &I) -> (r: Option<O>)
        requires
            old(self).wf(),
        ensures
            final(self).wf(),
            final(self).rule() == old(self).rule(),
            final(self).contents() == old(self).contents().remove(*input),
            match r {
                Some(v) => old(self).contents().contains_key(*input) && v == old(
                    self,
                ).contents()[*input],
                None => !old(self).contents().contains_key(*input) && final(self).contents()
                    == old(self).contents(),
            },
    {
        self.raw.remove(input)
    }
}

impl<
    I: core::cmp::Eq + core::hash::Hash + Clone,
    O,
    F: Fn(&I) -> O,
    S: core::hash::BuildHasher,
> HashCache<I, O, Simple<F>, S> {
    /// Create a `HashCache` with the given hash builder and a plain
    /// function.
    pub fn with_hasher(hash_builder: S, f: F) -> (r: Self)
        requires
            vstd::std_specs::hash::obeys_key_model::<I>(),
            vstd::std_specs::hash::builds_valid_hashers::<S>(),
            clone_is_eq::<I>(),
        ensures
            r.wf(),
            r.contents() == Map::<I, O>::empty(),
            closed_under(
                r.contents(),
                |k| <Simple<F> as RecursiveRule<
                    std::collections::HashMap<I, O, S>,
                >>::installs(&r.rule(), k),
            ),
            r.rule() == (Simple { f }),
    {
        let map = HashMap::with_hasher(hash_builder);
        proof {
            assert(map@ =~= Map::<I, O>::empty());
        }
        HashCache { raw: GenericCache::with_cache(map, f) }
    }
}

impl<
    I: core::cmp::Eq + core::hash::Hash + Clone,
    O,
    F: Fn(&I) -> O,
> HashCache<I, O, Simple<F>, std::hash::RandomState> {
    /// Create a `HashCache` with the default hasher and a plain function.
    pub fn new(f: F) -> (r: Self)
        requires
            vstd::std_specs::hash::obeys_key_model::<I>(),
            clone_is_eq::<I>(),
        ensures
            r.wf(),
            r.contents() == Map::<I, O>::empty(),
            closed_under(
                r.contents(),
                |k| <Simple<F> as RecursiveRule<
                    std::collections::HashMap<I, O>,
                >>::installs(&r.rule(), k),
            ),
            r.rule() == (Simple { f }),
    {
        HashCache { raw: GenericCache::with_cache(std::collections::HashMap::new(), f) }
    }
}

impl<
    I: core::cmp::Eq + core::hash::Hash + Clone,
    O,
    R: RecursiveRule<std::collections::HashMap<I, O>>,
> HashCache<I, O, R, std::hash::RandomState> {
    /// Create a `HashCache` with the default hasher and a recursive rule.
    pub fn recursive(f: R) -> (r: Self)
        requires
            vstd::std_specs::hash::obeys_key_model::<I>(),
            clone_is_eq::<I>(),
        ensures
            r.wf(),
            r.contents() == Map::<I, O>::empty(),
            closed_under(r.contents(), |k| r.rule().installs(k)),
            r.rule() == f,
    {
        HashCache { raw: GenericCache::recursive_with_cache(std::collections::HashMap::new(), f) }
    }
}

/// A retrieval chain of the backing cache is a retrieval chain of the
/// hash-backed facade over it.
proof fn lemma_lift_gets_post<
    I: core::cmp::Eq + core::hash::Hash + Clone,
    O,
    R: RecursiveRule<std::collections::HashMap<I, O, S>>,
    S: core::hash::BuildHasher,
>(
    c0: GenericCache<std::collections::HashMap<I, O, S>, R>,
    inputs: Seq<I>,
    c1: GenericCache<std::collections::HashMap<I, O, S>, R>,
)
    requires
        GenericCache::gets_post(c0, inputs, c1),
    ensures
        HashCache::gets_post(HashCache { raw: c0 }, inputs, HashCache { raw: c1 }),
    decreases inputs.len(),
{
    if inputs.len() != 0 {
        let (mid, r) = choose|
            mid: GenericCache<std::collections::HashMap<I, O, S>, R>,
            r: O,
        |
            #[trigger] GenericCache::get_post(c0, inputs[0], mid, r) && GenericCache::gets_post(
                mid,
                inputs.skip(1),
                c1,
            );
        lemma_lift_gets_post(mid, inputs.skip(1), c1);
        assert(HashCache::get_post(
            HashCache { raw: c0 },
            inputs[0],
            HashCache { raw: mid },
            r,
        ));
    }
}

/// Ambient form of the lift, so a chain fact about the backing cache turns
/// into one about the facade wherever it is needed.
broadcast proof fn lemma_lift_gets_post_auto<
    I: core::cmp::Eq + core::hash::Hash + Clone,
    O,
    R: RecursiveRule<std::collections::HashMap<I, O, S>>,
    S: core::hash::BuildHasher,
>(
    c0: HashCache<I, O, R, S>,
    inputs: Seq<I>,
    c1: HashCache<I, O, R, S>,
)
    ensures
        #[trigger] GenericCache::gets_post(c0.raw, inputs, c1.raw) ==> HashCache::gets_post(
            c0,
            inputs,
            c1,
        ),
{
    if GenericCache::gets_post(c0.raw, inputs, c1.raw) {
        lemma_lift_gets_post(c0.raw, inputs, c1.raw);
        assert(c0 == (HashCache { raw: c0.raw }));
        assert(c1 == (HashCache { raw: c1.raw }));
    }
}

impl<
    I: core::cmp::Eq + core::hash::Hash + Clone,
    O,
    R: RecursiveRule<std::collections::HashMap<I, O, S>>,
    S: core::hash::BuildHasher,
> crate::fn_cache::FnCache<I, O> for HashCache<I, O, R, S> {
    open spec fn valid(&self) -> bool {
        self.wf()
    }

    open spec fn stored(&self) -> Map<I, O> {
        self.contents()
    }

    open spec fn ready(&self, i: I) -> bool {
        self.rule().pre(i)
    }

    open spec fn admissible(&self, i: I, o: O) -> bool {
        self.rule().rel(i, o)
    }

    fn get(&mut self, input: I) -> (r: &O) {
        HashCache::get(self, input)
    }
}

impl<
    I: core::cmp::Eq + core::hash::Hash + Clone,
    O,
    R: RecursiveRule<std::collections::HashMap<I, O, S>>,
    S: core::hash::BuildHasher,
> crate::fn_cache::FnCacheMany<I, O> for HashCache<I, O, R, S> {
    fn get_many(&mut self, inputs: Vec<I>) -> (rs: Vec<&O>) {
        HashCache::get_many(self, inputs)
    }
}

} // verus!
