use vstd::prelude::*;

use crate::cache::{default_is_empty_store, Cache, CacheClear, CacheLen, CacheRemove, CacheReserve};
use crate::container::clone_is_eq;
use crate::generic_cache::{closed_under, consistent, Simple};

verus! {

/// A plain computation rule: a function of the key alone, never looking
/// back into the cache. Any closure or function of the right shape is one.
pub trait FnSimple<C: Cache> {
    /// The inputs the rule accepts; by default, all of them.
    open spec fn pre(&self, i: C::Input) -> bool {
        true
    }

    /// The outputs the rule may produce for an input; by default, anything,
    /// which promises nothing of what the cache serves.
    open spec fn rel(&self, i: C::Input, o: C::Output) -> bool {
        true
    }

    /// Produce the output for `input`.
    fn call(&self, input: &C::Input) -> (out: C::Output)
        requires
            self.pre(*input),
        ensures
            self.rel(*input, out),
    ;
}

impl<C: Cache, T: Fn(&C::Input) -> C::Output> FnSimple<C> for T {
    open spec fn pre(&self, i: C::Input) -> bool {
        call_requires(*self, (&i,))
    }

    open spec fn rel(&self, i: C::Input, o: C::Output) -> bool {
        call_ensures(*self, (&i,), o)
    }

    fn call(&self, input: &C::Input) -> (out: C::Output) {
        (self)(input)
    }
}

/// A computation rule that may look up other keys in the same cache while
/// computing the current one. The contract is what confines the rule to
/// retrieval: it must leave every association it finds in place, and may
/// only add associations that satisfy its own relation. Mid-computation
/// lookups go through a [`RefCache`] built over the borrowed store.
pub trait FnRecursive<C: Cache>: Sized {
    /// The inputs the rule accepts; by default, all of them.
    open spec fn pre(&self, i: C::Input) -> bool {
        true
    }

    /// The outputs the rule may produce for an input; by default, anything,
    /// which promises nothing of what the cache serves.
    open spec fn rel(&self, i: C::Input, o: C::Output) -> bool {
        true
    }

    /// Whether the rule may insert entries while it runs; a rule that never
    /// looks back into the cache leaves the store exactly as it found it.
    open spec fn touches_cache(&self) -> bool {
        true
    }

    /// The keys a completed computation for `i` leaves stored, beyond the
    /// requested key itself, which the engine stores afterwards: for a
    /// recurrence, typically every key the computation depends on. By
    /// default, none are promised.
    open spec fn installs(&self, i: C::Input) -> Set<C::Input> {
        Set::empty()
    }

    /// Produce the output for `input`, with the store borrowed for
    /// mid-computation lookups.
    fn call(&self, cache: &mut C, input: &C::Input) -> (out: C::Output)
        requires
            old(cache).inv(),
            consistent(old(cache).contents(), |k, v| self.rel(k, v)),
            self.pre(*input),
        ensures
            final(cache).inv(),
            consistent(final(cache).contents(), |k, v| self.rel(k, v)),
            old(cache).contents().submap_of(final(cache).contents()),
            !self.touches_cache() ==> final(cache).contents() == old(cache).contents(),
            self.rel(*input, out),
            closed_under(old(cache).contents(), |k| self.installs(k)) ==> closed_under(
                final(cache).contents(),
                |k| self.installs(k),
            ),
            closed_under(old(cache).contents(), |k| self.installs(k)) ==> (forall|k: C::Input|
                #[trigger] self.installs(*input).contains(k)
                    ==> final(cache).contents().contains_key(k)),
    ;
}

impl<C: Cache, G: FnSimple<C>> FnRecursive<C> for Simple<G> {
    open spec fn pre(&self, i: C::Input) -> bool {
        self.f.pre(i)
    }

    open spec fn rel(&self, i: C::Input, o: C::Output) -> bool {
        self.f.rel(i, o)
    }

    open spec fn touches_cache(&self) -> bool {
        false
    }

    fn call(&self, cache: &mut C, input: &C::Input) -> (out: C::Output) {
        self.f.call(input)
    }
}

/// What a plain function means as a [`FnSimple`] rule on concrete values:
/// it may be asked for exactly the inputs it accepts, and may produce
/// exactly the outputs it could return.
pub proof fn lemma_fn_simple_spec<C: Cache, T: Fn(&C::Input) -> C::Output>(
    f: &T,
    i: C::Input,
    o: C::Output,
)
    ensures
        <T as FnSimple<C>>::pre(f, i) == call_requires(*f, (&i,)),
        <T as FnSimple<C>>::rel(f, i, o) == call_ensures(*f, (&i,), o),
{
}

/// What [`Simple`] over a [`FnSimple`] rule means: the same inputs and the
/// same outputs as the rule it adapts.
pub proof fn lemma_simple_fn_recursive_spec<C: Cache, G: FnSimple<C>>(
    f: &Simple<G>,
    i: C::Input,
    o: C::Output,
)
    ensures
        <Simple<G> as FnRecursive<C>>::pre(f, i) == f.f.pre(i),
        <Simple<G> as FnRecursive<C>>::rel(f, i, o) == f.f.rel(i, o),
        <Simple<G> as FnRecursive<C>>::installs(f, i) == Set::<C::Input>::empty(),
{
}

/// Retrieve the value for `input` from a borrowed store, computing and
/// storing it first through the rule `f` if it is not present: the
/// compute-or-fetch engine behind the raw cache, and the path a rule's own
/// lookups take back into the store it is populating.
pub fn get_or_compute<'c, C: Cache, R: FnRecursive<C>>(
    cache: &'c mut C,
    f: &R,
    input: C::Input,
) -> (r: &'c C::Output)
    requires
        old(cache).inv(),
        consistent(old(cache).contents(), |k, v| f.rel(k, v)),
        f.pre(input),
    ensures
        final(cache).inv(),
        consistent(final(cache).contents(), |k, v| f.rel(k, v)),
        old(cache).contents().submap_of(final(cache).contents()),
        final(cache).contents().contains_key(input),
        *r == final(cache).contents()[input],
        f.rel(input, *r),
        closed_under(old(cache).contents(), |k| f.installs(k)) ==> closed_under(
            final(cache).contents(),
            |k| f.installs(k),
        ),
        closed_under(old(cache).contents(), |k| f.installs(k)) ==> (forall|k: C::Input|
            #[trigger] f.installs(input).contains(k) ==> final(cache).contents().contains_key(k)),
        old(cache).contents().contains_key(input) ==> final(cache).contents() == old(
            cache,
        ).contents(),
        !f.touches_cache() && !old(cache).contents().contains_key(input)
            ==> final(cache).contents() == old(cache).contents().insert(input, *r),
{
    if cache.has(&input) {
        proof {
            if closed_under(cache.contents(), |k| f.installs(k)) {
                assert forall|k: C::Input| f.installs(input).contains(k) implies cache.contents().contains_key(k) by {
                    assert(cache.contents().contains_key(input));
                    assert((|k2: C::Input| f.installs(k2))(input).contains(k));
                }
            }
        }
        return cache.get(&input).unwrap();
    }
    let output = f.call(cache, &input);
    cache.put(input, output)
}

/// A cache for a function, backed by anything that implements the [`Cache`]
/// trait.
///
/// The cache takes ownership of all inputs, but only passes a reference to
/// the function, allowing it to store the input in the cache without any
/// copies or clones. Retrieval likewise hands back a reference to the
/// stored output rather than a copy.
pub struct RawCache<C: Cache, R: FnRecursive<C>> {
    cache: C,
    f: R,
}

impl<C: Cache, R: FnRecursive<C>> RawCache<C, R> {
    /// The backing store.
    pub closed spec fn container(&self) -> C {
        self.cache
    }

    /// The rule being memoized.
    pub closed spec fn rule(&self) -> R {
        self.f
    }

    /// The key-value associations currently stored.
    pub closed spec fn contents(&self) -> Map<C::Input, C::Output> {
        self.cache.contents()
    }

    /// The cache is usable: the store is structurally sound and every
    /// stored association is one the rule allows.
    pub open spec fn wf(&self) -> bool {
        &&& self.container().inv()
        &&& consistent(self.contents(), |k, v| self.rule().rel(k, v))
    }

    /// How one retrieval steps the cache from `c0` to `c1` returning `r`:
    /// the statement of [`Self::get`]'s effect.
    pub open spec fn get_post(c0: Self, input: C::Input, c1: Self, r: C::Output) -> bool {
        &&& c1.wf()
        &&& c1.rule() == c0.rule()
        &&& c0.contents().submap_of(c1.contents())
        &&& c1.contents().contains_key(input)
        &&& r == c1.contents()[input]
        &&& c0.rule().rel(input, r)
        &&& (closed_under(c0.contents(), |k| c0.rule().installs(k)) ==> closed_under(
            c1.contents(),
            |k| c0.rule().installs(k),
        ))
        &&& (closed_under(c0.contents(), |k| c0.rule().installs(k)) ==> (forall|k: C::Input|
            #[trigger] c0.rule().installs(input).contains(k) ==> c1.contents().contains_key(k)))
        &&& (c0.contents().contains_key(input) ==> c1.contents() == c0.contents())
        &&& (!c0.rule().touches_cache() && !c0.contents().contains_key(input)
            ==> c1.contents() == c0.contents().insert(input, r))
    }

    /// How a sequence of retrievals, one per element of `inputs` from left
    /// to right, steps the cache from `c0` to `c1`.
    pub open spec fn gets_post(c0: Self, inputs: Seq<C::Input>, c1: Self) -> bool
        decreases inputs.len(),
    {
        if inputs.len() == 0 {
            c1 == c0
        } else {
            exists|mid: Self, r: C::Output|
                #[trigger] Self::get_post(c0, inputs[0], mid, r) && Self::gets_post(
                    mid,
                    inputs.skip(1),
                    c1,
                )
        }
    }

    /// Create a `RawCache` out of a store and a recursive rule.
    pub fn recursive_with_cache(cache: C, f: R) -> (r: Self)
        requires
            cache.inv(),
            consistent(cache.contents(), |k, v| f.rel(k, v)),
        ensures
            r.wf(),
            r.container() == cache,
            r.contents() == cache.contents(),
            r.rule() == f,
    {
        RawCache { cache, f }
    }

    /// Get a reference to the underlying store, letting you use functions
    /// exclusive to the store type, as long as they only need `&self`.
    pub fn cache(&self) -> (r: &C)
        ensures
            *r == self.container(),
            r.contents() == self.contents(),
            self.wf() ==> r.inv(),
    {
        &self.cache
    }

    /// Retrieve the value for `input`, computing and storing it first if it
    /// is not present. If the rule's own lookups already installed a value
    /// for `input` while it ran, the freshly computed value is discarded and
    /// the earlier entry returned unchanged.
    pub fn get(&mut self, input: C::Input) -> (r: &C::Output)
        requires
            old(self).wf(),
            old(self).rule().pre(input),
        ensures
            Self::get_post(*old(self), input, *final(self), *r),
    {
        get_or_compute(&mut self.cache, &self.f, input)
    }

    /// Retrieve the values for `inputs`, in order from left to right,
    /// computing and storing any that are missing, then hand back references
    /// positionally corresponding to `inputs`. The effect on the cache is
    /// exactly that of one [`Self::get`] call per input, left to right; the
    /// references are only collected once all retrievals are done.
    pub fn get_many(&mut self, inputs: Vec<C::Input>) -> (rs: Vec<&C::Output>) where
        C::Input: Clone,

        requires
            old(self).wf(),
            clone_is_eq::<C::Input>(),
            forall|t: int| 0 <= t < inputs@.len() ==> old(self).rule().pre(#[trigger] inputs@[t]),
        ensures
            final(self).wf(),
            final(self).rule() == old(self).rule(),
            old(self).contents().submap_of(final(self).contents()),
            Self::gets_post(*old(self), inputs@, *final(self)),
            rs@.len() == inputs@.len(),
            forall|t: int|
                0 <= t < inputs@.len() ==> final(self).contents().contains_key(
                    #[trigger] inputs@[t],
                ),
            forall|t: int|
                0 <= t < rs@.len() ==> *(#[trigger] rs@[t]) == final(self).contents()[inputs@[t]]
                    && old(self).rule().rel(inputs@[t], *rs@[t]),
            closed_under(old(self).contents(), |k| old(self).rule().installs(k))
                ==> closed_under(final(self).contents(), |k| old(self).rule().installs(k)),
            closed_under(old(self).contents(), |k| old(self).rule().installs(k)) ==> (forall|
                t: int,
                k: C::Input,
            |
                0 <= t < inputs@.len() && #[trigger] old(self).rule().installs(
                    inputs@[t],
                ).contains(k) ==> final(self).contents().contains_key(k)),
    {
        let mut j: usize = 0;
        while j < inputs.len()
            invariant
                j <= inputs.len(),
                self.wf(),
                self.rule() == old(self).rule(),
                old(self).contents().submap_of(self.contents()),
                clone_is_eq::<C::Input>(),
                closed_under(old(self).contents(), |k| old(self).rule().installs(k))
                    ==> closed_under(self.contents(), |k| old(self).rule().installs(k)),
                forall|t: int|
                    0 <= t < inputs@.len() ==> old(self).rule().pre(#[trigger] inputs@[t]),
                RawCache::gets_post(*old(self), inputs@.take(j as int), *self),
                forall|t: int| 0 <= t < j ==> self.contents().contains_key(#[trigger] inputs@[t]),
            decreases inputs.len() - j,
        {
            let ghost prev = *self;
            let k = inputs[j].clone();
            let r = self.get(k);
            proof {
                lemma_raw_gets_post_push(
                    *old(self),
                    inputs@.take(j as int),
                    prev,
                    k,
                    *self,
                    *r,
                );
                assert(inputs@.take(j as int).push(k) =~= inputs@.take(j as int + 1));
                vstd::map_lib::lemma_submap_of_trans(
                    old(self).contents(),
                    prev.contents(),
                    self.contents(),
                );
            }
            j += 1;
        }
        proof {
            assert(inputs@.take(inputs@.len() as int) =~= inputs@);
            if closed_under(old(self).contents(), |k| old(self).rule().installs(k)) {
                assert forall|t: int, k: C::Input|
                    0 <= t < inputs@.len() && #[trigger] old(self).rule().installs(
                        inputs@[t],
                    ).contains(k) implies self.contents().contains_key(k) by {
                    assert(self.contents().contains_key(inputs@[t]));
                    assert((|k2: C::Input| old(self).rule().installs(k2))(
                        inputs@[t],
                    ).contains(k));
                }
            }
        }
        let mut rs: Vec<&C::Output> = Vec::new();
        let mut i: usize = 0;
        while i < inputs.len()
            invariant
                i <= inputs.len(),
                self.wf(),
                self.rule() == old(self).rule(),
                rs@.len() == i,
                forall|t: int|
                    0 <= t < inputs@.len() ==> self.contents().contains_key(#[trigger] inputs@[t]),
                forall|t: int|
                    0 <= t < i ==> *(#[trigger] rs@[t]) == self.contents()[inputs@[t]],
            decreases inputs.len() - i,
        {
            let r = self.cache.get(&inputs[i]).unwrap();
            rs.push(r);
            i += 1;
        }
        rs
    }
}

impl<C: Cache, G: FnSimple<C>> RawCache<C, Simple<G>> {
    /// Create a `RawCache` out of a store and a plain function.
    pub fn with_cache(cache: C, f: G) -> (r: Self)
        requires
            cache.inv(),
            consistent(cache.contents(), |k, v| f.rel(k, v)),
        ensures
            r.wf(),
            r.container() == cache,
            r.contents() == cache.contents(),
            r.rule() == (Simple { f }),
    {
        RawCache { cache, f: Simple { f } }
    }
}

impl<C: Cache + Default, G: FnSimple<C>> RawCache<C, Simple<G>> {
    /// Create a `RawCache` using the `Default` store of type `C`.
    pub fn new(f: G) -> (r: Self)
        requires
            default_is_empty_store::<C>(),
        ensures
            r.wf(),
            r.contents() == Map::<C::Input, C::Output>::empty(),
            closed_under(
                r.contents(),
                |k| <Simple<G> as FnRecursive<C>>::installs(&r.rule(), k),
            ),
            r.rule() == (Simple { f }),
    {
        Self::with_cache(Default::default(), f)
    }
}

impl<C: Cache + Default, R: FnRecursive<C>> RawCache<C, R> {
    /// Create a `RawCache` using the `Default` store of type `C`, with a
    /// recursive rule.
    pub fn recursive(f: R) -> (r: Self)
        requires
            default_is_empty_store::<C>(),
        ensures
            r.wf(),
            r.contents() == Map::<C::Input, C::Output>::empty(),
            closed_under(r.contents(), |k| r.rule().installs(k)),
            r.rule() == f,
    {
        Self::recursive_with_cache(Default::default(), f)
    }
}

impl<C: CacheLen, R: FnRecursive<C>> RawCache<C, R> {
    /// Returns the number of associations in the cache.
    pub fn len(&self) -> (r: usize)
        requires
            self.wf(),
        ensures
            self.contents().dom().finite(),
            r == self.contents().dom().len(),
    {
        self.cache.len()
    }
}

impl<C: CacheClear, R: FnRecursive<C>> RawCache<C, R> {
    /// Clears the cache, removing all key-value pairs.
    /// Keeps the allocated memory for reuse.
    pub fn clear(&mut self)
        requires
            old(self).wf(),
        ensures
            final(self).wf(),
            final(self).rule() == old(self).rule(),
            final(self).contents() == Map::<C::Input, C::Output>::empty(),
    {
        self.cache.clear()
    }
}

impl<C: CacheReserve, R: FnRecursive<C>> RawCache<C, R> {
    /// Reserves capacity for at least `additional` more associations: a
    /// capacity hint only, the stored associations are untouched.
    pub fn reserve(&mut self, additional: usize)
        requires
            old(self).wf(),
        ensures
            final(self).wf(),
            final(self).rule() == old(self).rule(),
            final(self).contents() == old(self).contents(),
    {
        self.cache.reserve(additional)
    }
}

impl<C: CacheRemove, R: FnRecursive<C>> RawCache<C, R> {
    /// Removes the input from the cache, returning its value if the input
    /// was previously in the cache, and an absent result otherwise, in which
    /// case nothing changes.
    pub fn remove(&mut self, input: &C::Input) -> (r: Option<C::Output>)
        requires
            old(self).wf(),
        ensures
            final(self).wf(),
            final(self).rule() == old(self).rule(),
            final(self).contents() == old(self).contents().remove(*input),
            match r {
                Some(v) => old(self).contents().contains_key(*input) && v == old(
                    self,
                ).contents()[*input],
                None => !old(self).contents().contains_key(*input) && final(self).contents()
                    == old(self).contents(),
            },
    {
        let r = self.cache.remove(input);
        proof {
            if !old(self).contents().contains_key(*input) {
                assert(old(self).contents().remove(*input) =~= old(self).contents());
            }
        }
        r
    }
}

/// A non-owning handle over a store that an in-flight computation is
/// populating, together with the rule being memoized. It exposes retrieval
/// only, none of the store's lifecycle operations, and is the handle a
/// [`FnRecursive`] rule builds to look up further keys mid-computation.
pub struct RefCache<'c, C: Cache, R: FnRecursive<C>> {
    cache: &'c mut C,
    f: &'c R,
}

impl<'c, C: Cache, R: FnRecursive<C>> RefCache<'c, C, R> {
    /// The rule whose results this handle serves.
    pub closed spec fn rule(&self) -> R {
        *self.f
    }

    /// The borrowed store.
    pub closed spec fn container(&self) -> C {
        *self.cache
    }

    /// The key-value associations currently stored behind the handle.
    pub closed spec fn contents(&self) -> Map<C::Input, C::Output> {
        self.cache.contents()
    }

    /// The handle is usable: the store is structurally sound and every
    /// stored association is one the rule allows.
    pub open spec fn wf(&self) -> bool {
        &&& self.container().inv()
        &&& consistent(self.contents(), |k, v| self.rule().rel(k, v))
    }

    pub fn new(cache: &'c mut C, f: &'c R) -> (r: RefCache<'c, C, R>)
        ensures
            r.rule() == *f,
            r.contents() == old(cache).contents(),
            r.wf() <==> (old(cache).inv() && consistent(
                old(cache).contents(),
                |k, v| f.rel(k, v),
            )),
    {
        RefCache { cache, f }
    }

    /// Retrieve the value for `input`, computing and storing it first if it
    /// is not present. An association, once stored, is never replaced.
    pub fn get(&mut self, input: C::Input) -> (r: &C::Output)
        requires
            old(self).wf(),
            old(self).rule().pre(input),
        ensures
            final(self).wf(),
            final(self).rule() == old(self).rule(),
            old(self).contents().submap_of(final(self).contents()),
            final(self).contents().contains_key(input),
            *r == final(self).contents()[input],
            old(self).rule().rel(input, *r),
            closed_under(old(self).contents(), |k| old(self).rule().installs(k))
                ==> closed_under(final(self).contents(), |k| old(self).rule().installs(k)),
            closed_under(old(self).contents(), |k| old(self).rule().installs(k)) ==> (forall|
                k: C::Input,
            |
                #[trigger] old(self).rule().installs(input).contains(k)
                    ==> final(self).contents().contains_key(k)),
            old(self).contents().contains_key(input) ==> final(self).contents() == old(
                self,
            ).contents(),
    {
        get_or_compute(self.cache, self.f, input)
    }

    /// Retrieve the values for `inputs`, in order from left to right, then
    /// hand back references positionally corresponding to `inputs`, only
    /// collected once all retrievals are done.
    pub fn get_many(&mut self, inputs: Vec<C::Input>) -> (rs: Vec<&C::Output>) where
        C::Input: Clone,

        requires
            old(self).wf(),
            clone_is_eq::<C::Input>(),
            forall|t: int| 0 <= t < inputs@.len() ==> old(self).rule().pre(#[trigger] inputs@[t]),
        ensures
            final(self).wf(),
            final(self).rule() == old(self).rule(),
            old(self).contents().submap_of(final(self).contents()),
            rs@.len() == inputs@.len(),
            forall|t: int|
                0 <= t < inputs@.len() ==> final(self).contents().contains_key(
                    #[trigger] inputs@[t],
                ),
            forall|t: int|
                0 <= t < rs@.len() ==> *(#[trigger] rs@[t]) == final(self).contents()[inputs@[t]]
                    && old(self).rule().rel(inputs@[t], *rs@[t]),
            closed_under(old(self).contents(), |k| old(self).rule().installs(k))
                ==> closed_under(final(self).contents(), |k| old(self).rule().installs(k)),
            closed_under(old(self).contents(), |k| old(self).rule().installs(k)) ==> (forall|
                t: int,
                k: C::Input,
            |
                0 <= t < inputs@.len() && #[trigger] old(self).rule().installs(
                    inputs@[t],
                ).contains(k) ==> final(self).contents().contains_key(k)),
    {
        let mut j: usize = 0;
        while j < inputs.len()
            invariant
                j <= inputs.len(),
                self.wf(),
                self.rule() == old(self).rule(),
                old(self).contents().submap_of(self.contents()),
                clone_is_eq::<C::Input>(),
                closed_under(old(self).contents(), |k| old(self).rule().installs(k))
                    ==> closed_under(self.contents(), |k| old(self).rule().installs(k)),
                forall|t: int|
                    0 <= t < inputs@.len() ==> old(self).rule().pre(#[trigger] inputs@[t]),
                forall|t: int| 0 <= t < j ==> self.contents().contains_key(#[trigger] inputs@[t]),
            decreases inputs.len() - j,
        {
            let ghost prev = *self;
            let k = inputs[j].clone();
            self.get(k);
            proof {
                vstd::map_lib::lemma_submap_of_trans(
                    old(self).contents(),
                    prev.contents(),
                    self.contents(),
                );
            }
            j += 1;
        }
        proof {
            if closed_under(old(self).contents(), |k| old(self).rule().installs(k)) {
                assert forall|t: int, k: C::Input|
                    0 <= t < inputs@.len() && #[trigger] old(self).rule().installs(
                        inputs@[t],
                    ).contains(k) implies self.contents().contains_key(k) by {
                    assert(self.contents().contains_key(inputs@[t]));
                    assert((|k2: C::Input| old(self).rule().installs(k2))(
                        inputs@[t],
                    ).contains(k));
                }
            }
        }
        let mut rs: Vec<&C::Output> = Vec::new();
        let mut i: usize = 0;
        while i < inputs.len()
            invariant
                i <= inputs.len(),
                self.wf(),
                self.rule() == old(self).rule(),
                rs@.len() == i,
                forall|t: int|
                    0 <= t < inputs@.len() ==> self.contents().contains_key(#[trigger] inputs@[t]),
                forall|t: int|
                    0 <= t < i ==> *(#[trigger] rs@[t]) == self.contents()[inputs@[t]],
            decreases inputs.len() - i,
        {
            let r = self.cache.get(&inputs[i]).unwrap();
            rs.push(r);
            i += 1;
        }
        rs
    }
}

/// Extending a retrieval sequence on the right by one more retrieval.
pub proof fn lemma_raw_gets_post_push<C: Cache, R: FnRecursive<C>>(
    c0: RawCache<C, R>,
    inputs: Seq<C::Input>,
    c1: RawCache<C, R>,
    input: C::Input,
    c2: RawCache<C, R>,
    r: C::Output,
)
    requires
        RawCache::gets_post(c0, inputs, c1),
        RawCache::get_post(c1, input, c2, r),
    ensures
        RawCache::gets_post(c0, inputs.push(input), c2),
    decreases inputs.len(),
{
    if inputs.len() == 0 {
        assert(inputs.push(input)[0] == input);
        assert(inputs.push(input).skip(1) =~= Seq::<C::Input>::empty());
        assert(RawCache::get_post(c0, inputs.push(input)[0], c2, r));
        assert(RawCache::gets_post(c2, inputs.push(input).skip(1), c2));
    } else {
        let (mid, r0) = choose|mid: RawCache<C, R>, r0: C::Output|
            #[trigger] RawCache::get_post(c0, inputs[0], mid, r0) && RawCache::gets_post(
                mid,
                inputs.skip(1),
                c1,
            );
        lemma_raw_gets_post_push(mid, inputs.skip(1), c1, input, c2, r);
        assert(inputs.push(input)[0] == inputs[0]);
        assert(inputs.push(input).skip(1) =~= inputs.skip(1).push(input));
        assert(RawCache::get_post(c0, inputs.push(input)[0], mid, r0));
        assert(RawCache::gets_post(mid, inputs.push(input).skip(1), c2));
    }
}

impl<C: Cache, R: FnRecursive<C>> crate::fn_cache::FnCache<
    C::Input,
    C::Output,
> for RawCache<C, R> {
    open spec fn valid(&self) -> bool {
        self.wf()
    }

    open spec fn stored(&self) -> Map<C::Input, C::Output> {
        self.contents()
    }

    open spec fn ready(&self, i: C::Input) -> bool {
        self.rule().pre(i)
    }

    open spec fn admissible(&self, i: C::Input, o: C::Output) -> bool {
        self.rule().rel(i, o)
    }

    fn get(&mut self, input: C::Input) -> (r: &C::Output) {
        RawCache::get(self, input)
    }
}

impl<C: Cache, R: FnRecursive<C>> crate::fn_cache::FnCacheMany<
    C::Input,
    C::Output,
> for RawCache<C, R> where C::Input: Clone {
    fn get_many(&mut self, inputs: Vec<C::Input>) -> (rs: Vec<&C::Output>) {
        RawCache::get_many(self, inputs)
    }
}

impl<'c, C: Cache, R: FnRecursive<C>> crate::fn_cache::FnCache<
    C::Input,
    C::Output,
> for RefCache<'c, C, R> {
    open spec fn valid(&self) -> bool {
        self.wf()
    }

    open spec fn stored(&self) -> Map<C::Input, C::Output> {
        self.contents()
    }

    open spec fn ready(&self, i: C::Input) -> bool {
        self.rule().pre(i)
    }

    open spec fn admissible(&self, i: C::Input, o: C::Output) -> bool {
        self.rule().rel(i, o)
    }

    fn get(&mut self, input: C::Input) -> (r: &C::Output) {
        RefCache::get(self, input)
    }
}

impl<'c, C: Cache, R: FnRecursive<C>> crate::fn_cache::FnCacheMany<
    C::Input,
    C::Output,
> for RefCache<'c, C, R> where C::Input: Clone {
    fn get_many(&mut self, inputs: Vec<C::Input>) -> (rs: Vec<&C::Output>) {
        RefCache::get_many(self, inputs)
    }
}

} // verus!
