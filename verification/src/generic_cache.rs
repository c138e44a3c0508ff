use vstd::prelude::*;

use crate::container::{
    clone_is_eq, default_is_empty, ContainerClear, ContainerLen, ContainerRemove,
    ContainerReserve, SparseContainer,
};

verus! {

/// Every association in `m` satisfies the relation `rel`.
pub open spec fn consistent<K, V>(m: Map<K, V>, rel: spec_fn(K, V) -> bool) -> bool {
    forall|k: K| #[trigger] m.contains_key(k) ==> rel(k, m[k])
}

/// Every key stored in `m` has its guaranteed companions stored too: the
/// keys `deps` says a completed computation for it leaves installed.
pub open spec fn closed_under<K, V>(m: Map<K, V>, deps: spec_fn(K) -> Set<K>) -> bool {
    forall|k: K, j: K| m.contains_key(k) && #[trigger] deps(k).contains(j) ==> m.contains_key(j)
}

/// A computation rule that may look up other keys in the same cache while
/// computing the current one, for example computing a sequence element by
/// retrieving the two elements before it.
///
/// The contract is what confines a rule to retrieval: a rule must leave
/// every association it finds in place (`submap_of`), and may only add
/// associations that satisfy its own relation. Mid-computation lookups go
/// through a [`RefCache`] built over the borrowed container.
pub trait RecursiveRule<C: SparseContainer>: Sized {
    /// The inputs the rule accepts; by default, all of them.
    open spec fn pre(&self, i: C::Input) -> bool {
        true
    }

    /// The outputs the rule may produce for an input; by default, anything,
    /// which promises nothing of what the cache serves.
    open spec fn rel(&self, i: C::Input, o: C::Output) -> bool {
        true
    }

    /// Whether the rule may insert entries while it runs; a rule that never
    /// looks back into the cache leaves the container exactly as it found it.
    open spec fn touches_cache(&self) -> bool {
        true
    }

    /// The keys a completed computation for `i` leaves stored, beyond the
    /// requested key itself, which the engine stores afterwards: for a
    /// recurrence, typically every key the computation depends on. By
    /// default, none are promised.
    open spec fn installs(&self, i: C::Input) -> Set<C::Input> {
        Set::empty()
    }

    /// Produce the output for `input`, with the container borrowed for
    /// mid-computation lookups.
    fn call(&self, cache: &mut C, input: &C::Input) -> (out: C::Output)
        requires
            old(cache).inv(),
            consistent(old(cache).contents(), |k, v| self.rel(k, v)),
            self.pre(*input),
        ensures
            final(cache).inv(),
            consistent(final(cache).contents(), |k, v| self.rel(k, v)),
            old(cache).contents().submap_of(final(cache).contents()),
            !self.touches_cache() ==> final(cache).contents() == old(cache).contents(),
            self.rel(*input, out),
            closed_under(old(cache).contents(), |k| self.installs(k)) ==> closed_under(
                final(cache).contents(),
                |k| self.installs(k),
            ),
            closed_under(old(cache).contents(), |k| self.installs(k)) ==> (forall|k: C::Input|
                #[trigger] self.installs(*input).contains(k) ==> final(cache).contents().contains_key(k)),
    ;
}

/// Retrieve the value for `input` from a borrowed container, computing and
/// storing it first through the rule `f` if it is not present: the
/// compute-or-fetch engine behind every cache here, and the path a rule's
/// own lookups take back into the container it is populating.
pub fn get_or_compute<'c, C: SparseContainer, R: RecursiveRule<C>>(
    cache: &'c mut C,
    f: &R,
    input: C::Input,
) -> (r: &'c C::Output)
    requires
        old(cache).inv(),
        consistent(old(cache).contents(), |k, v| f.rel(k, v)),
        f.pre(input),
    ensures
        final(cache).inv(),
        consistent(final(cache).contents(), |k, v| f.rel(k, v)),
        old(cache).contents().submap_of(final(cache).contents()),
        final(cache).contents().contains_key(input),
        *r == final(cache).contents()[input],
        f.rel(input, *r),
        closed_under(old(cache).contents(), |k| f.installs(k)) ==> closed_under(
            final(cache).contents(),
            |k| f.installs(k),
        ),
        closed_under(old(cache).contents(), |k| f.installs(k)) ==> (forall|k: C::Input|
            #[trigger] f.installs(input).contains(k) ==> final(cache).contents().contains_key(k)),
        old(cache).contents().contains_key(input) ==> final(cache).contents() == old(
            cache,
        ).contents(),
        !f.touches_cache() && !old(cache).contents().contains_key(input)
            ==> final(cache).contents() == old(cache).contents().insert(input, *r),
{
    if cache.has(&input) {
        proof {
            if closed_under(cache.contents(), |k| f.installs(k)) {
                assert forall|k: C::Input| f.installs(input).contains(k) implies cache.contents().contains_key(k) by {
                    assert(cache.contents().contains_key(input));
                    assert((|k2: C::Input| f.installs(k2))(input).contains(k));
                }
            }
        }
        return cache.get(&input).unwrap();
    }
    let output = f.call(cache, &input);
    cache.put(input, output)
}

/// Adapts a plain function of the key, one that never looks back into the
/// cache, to the [`RecursiveRule`] shape, the only shape the cache engine
/// needs to handle.
pub struct Simple<F> {
    pub f: F,
}

impl<C: SparseContainer, F: Fn(&C::Input) -> C::Output> RecursiveRule<C> for Simple<F> {
    open spec fn pre(&self, i: C::Input) -> bool {
        call_requires(self.f, (&i,))
    }

    open spec fn rel(&self, i: C::Input, o: C::Output) -> bool {
        call_ensures(self.f, (&i,), o)
    }

    open spec fn touches_cache(&self) -> bool {
        false
    }

    fn call(&self, cache: &mut C, input: &C::Input) -> (out: C::Output) {
        (self.f)(input)
    }
}

/// What [`Simple`]'s rule means on concrete values: a plain function may be
/// asked for exactly the inputs it accepts.
pub proof fn lemma_simple_pre<C: SparseContainer, F: Fn(&C::Input) -> C::Output>(
    f: &Simple<F>,
    i: C::Input,
)
    ensures
        <Simple<F> as RecursiveRule<C>>::pre(f, i) == call_requires(f.f, (&i,)),
{
}

/// What [`Simple`]'s rule means on concrete values: the outputs it may
/// produce for an input are exactly those of the plain function.
pub proof fn lemma_simple_rel<C: SparseContainer, F: Fn(&C::Input) -> C::Output>(
    f: &Simple<F>,
    i: C::Input,
    o: C::Output,
)
    ensures
        <Simple<F> as RecursiveRule<C>>::rel(f, i, o) == call_ensures(f.f, (&i,), o),
{
}

/// What [`Simple`]'s rule means on concrete values: a plain function never
/// looks back into the cache, so it promises no installed companions.
pub proof fn lemma_simple_installs<C: SparseContainer, F: Fn(&C::Input) -> C::Output>(
    f: &Simple<F>,
    i: C::Input,
)
    ensures
        <Simple<F> as RecursiveRule<C>>::installs(f, i) == Set::<C::Input>::empty(),
{
}

/// A non-owning handle over a container that an in-flight computation is
/// populating, together with the rule being memoized. It exposes retrieval
/// only, none of the container's lifecycle operations, and is the handle a
/// [`RecursiveRule`] builds to look up further keys mid-computation.
pub struct RefCache<'c, C: SparseContainer, R: RecursiveRule<C>> {
    pub(crate) cache: &'c mut C,
    pub(crate) f: &'c R,
}

impl<'c, C: SparseContainer, R: RecursiveRule<C>> RefCache<'c, C, R> {
    /// The rule whose results this handle serves.
    pub closed spec fn rule(&self) -> R {
        *self.f
    }

    /// The borrowed container.
    pub closed spec fn container(&self) -> C {
        *self.cache
    }

    /// The key-value associations currently stored behind the handle.
    pub closed spec fn contents(&self) -> Map<C::Input, C::Output> {
        self.cache.contents()
    }

    /// The handle is usable: the container is structurally sound and every
    /// stored association is one the rule allows.
    pub open spec fn wf(&self) -> bool {
        &&& self.container().inv()
        &&& consistent(self.contents(), |k, v| self.rule().rel(k, v))
    }

    pub fn new(cache: &'c mut C, f: &'c R) -> (r: RefCache<'c, C, R>)
        ensures
            r.rule() == *f,
            r.contents() == old(cache).contents(),
            r.wf() <==> (old(cache).inv() && consistent(
                old(cache).contents(),
                |k, v| f.rel(k, v),
            )),
    {
        RefCache { cache, f }
    }

    /// Retrieve the value for `input`, computing and storing it first if it
    /// is not present. An association, once stored, is never replaced: if the
    /// rule's own lookups already installed a value for `input`, the freshly
    /// computed value is discarded and the stored one returned.
    pub fn get(&mut self, input: C::Input) -> (r: &C::Output)
        requires
            old(self).wf(),
            old(self).rule().pre(input),
        ensures
            final(self).wf(),
            final(self).rule() == old(self).rule(),
            old(self).contents().submap_of(final(self).contents()),
            final(self).contents().contains_key(input),
            *r == final(self).contents()[input],
            old(self).rule().rel(input, *r),
            closed_under(old(self).contents(), |k| old(self).rule().installs(k))
                ==> closed_under(final(self).contents(), |k| old(self).rule().installs(k)),
            closed_under(old(self).contents(), |k| old(self).rule().installs(k)) ==> (forall|
                k: C::Input,
            |
                #[trigger] old(self).rule().installs(input).contains(k) ==> final(self).contents().contains_key(k)),
            old(self).contents().contains_key(input) ==> final(self).contents() == old(
                self,
            ).contents(),
    {
        get_or_compute(self.cache, self.f, input)
    }

    /// Retrieve the values for `inputs`, in order from left to right, then
    /// hand back references positionally corresponding to `inputs`, only
    /// collected once all retrievals are done.
    pub fn get_many(&mut self, inputs: Vec<C::Input>) -> (rs: Vec<&C::Output>) where
        C::Input: Clone,

        requires
            old(self).wf(),
            clone_is_eq::<C::Input>(),
            forall|t: int| 0 <= t < inputs@.len() ==> old(self).rule().pre(#[trigger] inputs@[t]),
        ensures
            final(self).wf(),
            final(self).rule() == old(self).rule(),
            old(self).contents().submap_of(final(self).contents()),
            rs@.len() == inputs@.len(),
            forall|t: int|
                0 <= t < inputs@.len() ==> final(self).contents().contains_key(
                    #[trigger] inputs@[t],
                ),
            forall|t: int|
                0 <= t < rs@.len() ==> *(#[trigger] rs@[t]) == final(self).contents()[inputs@[t]]
                    && old(self).rule().rel(inputs@[t], *rs@[t]),
            closed_under(old(self).contents(), |k| old(self).rule().installs(k))
                ==> closed_under(final(self).contents(), |k| old(self).rule().installs(k)),
            closed_under(old(self).contents(), |k| old(self).rule().installs(k)) ==> (forall|
                t: int,
                k: C::Input,
            |
                0 <= t < inputs@.len() && #[trigger] old(self).rule().installs(
                    inputs@[t],
                ).contains(k) ==> final(self).contents().contains_key(k)),
    {
        let mut j: usize = 0;
        while j < inputs.len()
            invariant
                j <= inputs.len(),
                self.wf(),
                self.rule() == old(self).rule(),
                old(self).contents().submap_of(self.contents()),
                clone_is_eq::<C::Input>(),
                closed_under(old(self).contents(), |k| old(self).rule().installs(k))
                    ==> closed_under(self.contents(), |k| old(self).rule().installs(k)),
                forall|t: int|
                    0 <= t < inputs@.len() ==> old(self).rule().pre(#[trigger] inputs@[t]),
                forall|t: int| 0 <= t < j ==> self.contents().contains_key(#[trigger] inputs@[t]),
            decreases inputs.len() - j,
        {
            let ghost prev = *self;
            let k = inputs[j].clone();
            self.get(k);
            proof {
                vstd::map_lib::lemma_submap_of_trans(
                    old(self).contents(),
                    prev.contents(),
                    self.contents(),
                );
            }
            j += 1;
        }
        proof {
            if closed_under(old(self).contents(), |k| old(self).rule().installs(k)) {
                assert forall|t: int, k: C::Input|
                    0 <= t < inputs@.len() && #[trigger] old(self).rule().installs(
                        inputs@[t],
                    ).contains(k) implies self.contents().contains_key(k) by {
                    assert(self.contents().contains_key(inputs@[t]));
                    assert((|k2: C::Input| old(self).rule().installs(k2))(
                        inputs@[t],
                    ).contains(k));
                }
            }
        }
        let mut rs: Vec<&C::Output> = Vec::new();
        let mut i: usize = 0;
        while i < inputs.len()
            invariant
                i <= inputs.len(),
                self.wf(),
                self.rule() == old(self).rule(),
                rs@.len() == i,
                forall|t: int|
                    0 <= t < inputs@.len() ==> self.contents().contains_key(#[trigger] inputs@[t]),
                forall|t: int|
                    0 <= t < i ==> *(#[trigger] rs@[t]) == self.contents()[inputs@[t]],
            decreases inputs.len() - i,
        {
            let r = self.cache.get(&inputs[i]).unwrap();
            rs.push(r);
            i += 1;
        }
        rs
    }
}

/// A cache for a function, backed by anything that implements the
/// [`SparseContainer`] trait.
///
/// The cache takes ownership of all inputs, but only passes a reference to
/// the function, allowing it to store the input in the cache without any
/// copies or clones. Retrieval likewise hands back a reference to the stored
/// output rather than a copy.
pub struct GenericCache<C: SparseContainer, R: RecursiveRule<C>> {
    cache: C,
    f: R,
}

impl<C: SparseContainer, R: RecursiveRule<C>> GenericCache<C, R> {
    /// The backing container.
    pub closed spec fn container(&self) -> C {
        self.cache
    }

    /// The rule being memoized.
    pub closed spec fn rule(&self) -> R {
        self.f
    }

    /// The key-value associations currently stored.
    pub closed spec fn contents(&self) -> Map<C::Input, C::Output> {
        self.cache.contents()
    }

    /// The handle is usable: the container is structurally sound and every
    /// stored association is one the rule allows.
    pub open spec fn wf(&self) -> bool {
        &&& self.container().inv()
        &&& consistent(self.contents(), |k, v| self.rule().rel(k, v))
    }

    /// How one retrieval steps the cache from `c0` to `c1` returning `r`:
    /// the statement of [`Self::get`]'s effect, shared with the laws below.
    pub open spec fn get_post(c0: Self, input: C::Input, c1: Self, r: C::Output) -> bool {
        &&& c1.wf()
        &&& c1.rule() == c0.rule()
        &&& c0.contents().submap_of(c1.contents())
        &&& c1.contents().contains_key(input)
        &&& r == c1.contents()[input]
        &&& c0.rule().rel(input, r)
        &&& (closed_under(c0.contents(), |k| c0.rule().installs(k)) ==> closed_under(
            c1.contents(),
            |k| c0.rule().installs(k),
        ))
        &&& (closed_under(c0.contents(), |k| c0.rule().installs(k)) ==> (forall|k: C::Input|
            #[trigger] c0.rule().installs(input).contains(k) ==> c1.contents().contains_key(k)))
        &&& (c0.contents().contains_key(input) ==> c1.contents() == c0.contents())
        &&& (!c0.rule().touches_cache() && !c0.contents().contains_key(input)
            ==> c1.contents() == c0.contents().insert(input, r))
    }

    /// How a sequence of retrievals, one per element of `inputs` from left
    /// to right, steps the cache from `c0` to `c1`.
    pub open spec fn gets_post(c0: Self, inputs: Seq<C::Input>, c1: Self) -> bool
        decreases inputs.len(),
    {
        if inputs.len() == 0 {
            c1 == c0
        } else {
            exists|mid: Self, r: C::Output|
                #[trigger] Self::get_post(c0, inputs[0], mid, r) && Self::gets_post(
                    mid,
                    inputs.skip(1),
                    c1,
                )
        }
    }

    /// Create a `GenericCache` out of a container and a recursive rule.
    ///
    /// Using this constructor you can pre-initialize some values into the
    /// container if desired, as long as each one is a value the rule could
    /// have produced. If a default container is sufficient,
    /// [`Self::recursive`] is less verbose.
    pub fn recursive_with_cache(cache: C, f: R) -> (r: Self)
        requires
            cache.inv(),
            consistent(cache.contents(), |k, v| f.rel(k, v)),
        ensures
            r.wf(),
            r.container() == cache,
            r.contents() == cache.contents(),
            r.rule() == f,
    {
        GenericCache { cache, f }
    }

    /// Get a reference to the underlying container, letting you use
    /// functions exclusive to the container type, as long as they only need
    /// `&self`.
    pub fn cache(&self) -> (r: &C)
        ensures
            *r == self.container(),
            r.contents() == self.contents(),
            self.wf() ==> r.inv(),
    {
        &self.cache
    }

    /// Retrieve the value for `input`, computing and storing it first if it
    /// is not present. If the rule's own lookups already installed a value
    /// for `input` while it ran, the freshly computed value is discarded and
    /// the earlier entry returned unchanged.
    pub fn get(&mut self, input: C::Input) -> (r: &C::Output)
        requires
            old(self).wf(),
            old(self).rule().pre(input),
        ensures
            Self::get_post(*old(self), input, *final(self), *r),
    {
        get_or_compute(&mut self.cache, &self.f, input)
    }

    /// Retrieve the values for `inputs`, in order from left to right,
    /// computing and storing any that are missing, then hand back references
    /// positionally corresponding to `inputs`. The effect on the cache is
    /// exactly that of one [`Self::get`] call per input, left to right; the
    /// references are only collected once all retrievals are done.
    pub fn get_many(&mut self, inputs: Vec<C::Input>) -> (rs: Vec<&C::Output>) where
        C::Input: Clone,

        requires
            old(self).wf(),
            clone_is_eq::<C::Input>(),
            forall|t: int|
                0 <= t < inputs@.len() ==> old(self).rule().pre(#[trigger] inputs@[t]),
        ensures
            final(self).wf(),
            final(self).rule() == old(self).rule(),
            old(self).contents().submap_of(final(self).contents()),
            Self::gets_post(*old(self), inputs@, *final(self)),
            rs@.len() == inputs@.len(),
            forall|t: int|
                0 <= t < inputs@.len() ==> final(self).contents().contains_key(
                    #[trigger] inputs@[t],
                ),
            forall|t: int|
                0 <= t < rs@.len() ==> *(#[trigger] rs@[t]) == final(self).contents()[inputs@[t]]
                    && old(self).rule().rel(inputs@[t], *rs@[t]),
            closed_under(old(self).contents(), |k| old(self).rule().installs(k))
                ==> closed_under(final(self).contents(), |k| old(self).rule().installs(k)),
            closed_under(old(self).contents(), |k| old(self).rule().installs(k)) ==> (forall|
                t: int,
                k: C::Input,
            |
                0 <= t < inputs@.len() && #[trigger] old(self).rule().installs(
                    inputs@[t],
                ).contains(k) ==> final(self).contents().contains_key(k)),
    {
        let mut j: usize = 0;
        while j < inputs.len()
            invariant
                j <= inputs.len(),
                self.wf(),
                self.rule() == old(self).rule(),
                old(self).contents().submap_of(self.contents()),
                clone_is_eq::<C::Input>(),
                closed_under(old(self).contents(), |k| old(self).rule().installs(k))
                    ==> closed_under(self.contents(), |k| old(self).rule().installs(k)),
                forall|t: int|
                    0 <= t < inputs@.len() ==> old(self).rule().pre(#[trigger] inputs@[t]),
                GenericCache::gets_post(*old(self), inputs@.take(j as int), *self),
                forall|t: int|
                    0 <= t < j ==> self.contents().contains_key(#[trigger] inputs@[t]),
            decreases inputs.len() - j,
        {
            let ghost prev = *self;
            let k = inputs[j].clone();
            let r = self.get(k);
            proof {
                lemma_gets_post_push(
                    *old(self),
                    inputs@.take(j as int),
                    prev,
                    k,
                    *self,
                    *r,
                );
                assert(inputs@.take(j as int).push(k) =~= inputs@.take(j as int + 1));
                vstd::map_lib::lemma_submap_of_trans(
                    old(self).contents(),
                    prev.contents(),
                    self.contents(),
                );
            }
            j += 1;
        }
        proof {
            assert(inputs@.take(inputs@.len() as int) =~= inputs@);
            if closed_under(old(self).contents(), |k| old(self).rule().installs(k)) {
                assert forall|t: int, k: C::Input|
                    0 <= t < inputs@.len() && #[trigger] old(self).rule().installs(
                        inputs@[t],
                    ).contains(k) implies self.contents().contains_key(k) by {
                    assert(self.contents().contains_key(inputs@[t]));
                    assert((|k2: C::Input| old(self).rule().installs(k2))(
                        inputs@[t],
                    ).contains(k));
                }
            }
        }
        let mut rs: Vec<&C::Output> = Vec::new();
        let mut i: usize = 0;
        while i < inputs.len()
            invariant
                i <= inputs.len(),
                self.wf(),
                self.rule() == old(self).rule(),
                rs@.len() == i,
                forall|t: int|
                    0 <= t < inputs@.len() ==> self.contents().contains_key(#[trigger] inputs@[t]),
                forall|t: int|
                    0 <= t < i ==> *(#[trigger] rs@[t]) == self.contents()[inputs@[t]],
            decreases inputs.len() - i,
        {
            let r = self.cache.get(&inputs[i]).unwrap();
            rs.push(r);
            i += 1;
        }
        rs
    }
}

impl<C: SparseContainer, F: Fn(&C::Input) -> C::Output> GenericCache<C, Simple<F>> {
    /// Create a `GenericCache` out of a container and a function.
    ///
    /// Using this constructor you can pre-initialize some values into the
    /// container if desired, as long as each one is a value the function
    /// could have produced, or configure the container through its own
    /// constructors. If a default container is sufficient, [`Self::new`] is
    /// less verbose.
    pub fn with_cache(cache: C, f: F) -> (r: Self)
        requires
            cache.inv(),
            consistent(cache.contents(), |k, v| call_ensures(f, (&k,), v)),
        ensures
            r.wf(),
            r.container() == cache,
            r.contents() == cache.contents(),
            r.rule() == (Simple { f }),
    {
        GenericCache { cache, f: Simple { f } }
    }
}

impl<C: SparseContainer + Default, F: Fn(&C::Input) -> C::Output> GenericCache<C, Simple<F>> {
    /// Create a `GenericCache` using the `Default` container of type `C`.
    ///
    /// If a specific container instance is required, see [`Self::with_cache`].
    pub fn new(f: F) -> (r: Self)
        requires
            default_is_empty::<C>(),
        ensures
            r.wf(),
            r.contents() == Map::<C::Input, C::Output>::empty(),
            closed_under(
                r.contents(),
                |k| <Simple<F> as RecursiveRule<C>>::installs(&r.rule(), k),
            ),
            r.rule() == (Simple { f }),
    {
        Self::with_cache(Default::default(), f)
    }
}

impl<C: SparseContainer + Default, R: RecursiveRule<C>> GenericCache<C, R> {
    /// Create a `GenericCache` using the `Default` container of type `C`,
    /// with a recursive rule.
    ///
    /// If a specific container instance is required, see
    /// [`Self::recursive_with_cache`].
    pub fn recursive(f: R) -> (r: Self)
        requires
            default_is_empty::<C>(),
        ensures
            r.wf(),
            r.contents() == Map::<C::Input, C::Output>::empty(),
            closed_under(r.contents(), |k| r.rule().installs(k)),
            r.rule() == f,
    {
        Self::recursive_with_cache(Default::default(), f)
    }
}

impl<C: SparseContainer + ContainerLen, R: RecursiveRule<C>> GenericCache<C, R> {
    /// Returns the number of associations in the cache.
    pub fn len(&self) -> (r: usize)
        requires
            self.wf(),
        ensures
            self.contents().dom().finite(),
            r == self.contents().dom().len(),
    {
        self.cache.len()
    }
}

impl<C: SparseContainer + ContainerClear, R: RecursiveRule<C>> GenericCache<C, R> {
    /// Clears the cache, removing all key-value pairs.
    /// Keeps the allocated memory for reuse.
    pub fn clear(&mut self)
        requires
            old(self).wf(),
        ensures
            final(self).wf(),
            final(self).rule() == old(self).rule(),
            final(self).contents() == Map::<C::Input, C::Output>::empty(),
    {
        self.cache.clear()
    }
}

impl<C: SparseContainer + ContainerReserve, R: RecursiveRule<C>> GenericCache<C, R> {
    /// Reserves capacity for at least `additional` more associations to be
    /// inserted in the cache. The collection may reserve more space to avoid
    /// frequent reallocations. A capacity hint only: the stored associations
    /// are untouched.
    pub fn reserve(&mut self, additional: usize)
        requires
            old(self).wf(),
        ensures
            final(self).wf(),
            final(self).rule() == old(self).rule(),
            final(self).contents() == old(self).contents(),
    {
        self.cache.reserve(additional)
    }
}

impl<C: ContainerRemove, R: RecursiveRule<C>> GenericCache<C, R> {
    /// Removes the input from the cache, returning its value if the input
    /// was previously in the cache, and an absent result otherwise, in which
    /// case nothing changes.
    pub fn remove(&mut self, input: &C::Input) -> (r: Option<C::Output>)
        requires
            old(self).wf(),
        ensures
            final(self).wf(),
            final(self).rule() == old(self).rule(),
            final(self).contents() == old(self).contents().remove(*input),
            match r {
                Some(v) => old(self).contents().contains_key(*input) && v == old(
                    self,
                ).contents()[*input],
                None => !old(self).contents().contains_key(*input) && final(self).contents()
                    == old(self).contents(),
            },
    {
        let r = self.cache.remove(input);
        proof {
            if !old(self).contents().contains_key(*input) {
                assert(old(self).contents().remove(*input) =~= old(self).contents());
            }
        }
        r
    }
}

/// Idempotence: retrieving the same key twice returns equal values, and the
/// second retrieval finds the key present, so it changes nothing at all.
pub proof fn lemma_get_idempotent<C: SparseContainer, R: RecursiveRule<C>>(
    c0: GenericCache<C, R>,
    input: C::Input,
    c1: GenericCache<C, R>,
    r1: C::Output,
    c2: GenericCache<C, R>,
    r2: C::Output,
)
    requires
        GenericCache::get_post(c0, input, c1, r1),
        GenericCache::get_post(c1, input, c2, r2),
    ensures
        r2 == r1,
        c2.contents() == c1.contents(),
{
}

/// Lazy population: a key is stored only once it is retrieved. For a rule
/// that never looks back into the cache, retrieving an absent key adds
/// exactly that one association, growing the cache by exactly one entry,
/// while retrieving a present key adds nothing.
pub proof fn lemma_get_populates<C: SparseContainer, R: RecursiveRule<C>>(
    c0: GenericCache<C, R>,
    input: C::Input,
    c1: GenericCache<C, R>,
    r: C::Output,
)
    requires
        GenericCache::get_post(c0, input, c1, r),
        !c0.rule().touches_cache(),
    ensures
        c1.contents() == (if c0.contents().contains_key(input) {
            c0.contents()
        } else {
            c0.contents().insert(input, r)
        }),
        c1.contents().contains_key(input),
        c0.contents().dom().finite() ==> c1.contents().dom().finite()
            && c1.contents().dom().len() == c0.contents().dom().len() + (
        if c0.contents().contains_key(input) {
            0int
        } else {
            1int
        }),
{
    if c0.contents().dom().finite() && !c0.contents().contains_key(input) {
        assert(c1.contents().dom() =~= c0.contents().dom().insert(input));
    }
}

/// First writer wins: whatever association a retrieval finds in place it
/// leaves untouched, however the retrieved value itself was produced. In
/// particular the stored value for a key never changes once installed, even
/// when a recursive rule recomputes overlapping sub-keys.
pub proof fn lemma_first_writer_wins<C: SparseContainer, R: RecursiveRule<C>>(
    c0: GenericCache<C, R>,
    input: C::Input,
    c1: GenericCache<C, R>,
    r: C::Output,
    k: C::Input,
)
    requires
        GenericCache::get_post(c0, input, c1, r),
        c0.contents().contains_key(k),
    ensures
        c1.contents().contains_key(k),
        c1.contents()[k] == c0.contents()[k],
{
    assert(c0.contents().dom().contains(k));
    assert(c1.contents().contains_key(k) && c1.contents()[k] == c0.contents()[k]);
}

/// Recursive population: from a cache whose stored keys already carry their
/// guaranteed companions, a retrieval leaves the requested key and every key
/// the rule guarantees for it present, and the cache carries its companions
/// still. For a recurrence that declares it installs the keys it depends on,
/// one retrieval therefore populates its whole dependency chain.
pub proof fn lemma_recursive_population<C: SparseContainer, R: RecursiveRule<C>>(
    c0: GenericCache<C, R>,
    input: C::Input,
    c1: GenericCache<C, R>,
    r: C::Output,
)
    requires
        GenericCache::get_post(c0, input, c1, r),
        closed_under(c0.contents(), |k| c0.rule().installs(k)),
    ensures
        c1.contents().contains_key(input),
        forall|k: C::Input| #[trigger] c0.rule().installs(input).contains(k)
            ==> c1.contents().contains_key(k),
        closed_under(c1.contents(), |k| c0.rule().installs(k)),
{
}

/// A sequence of retrievals only ever adds associations: every association
/// present before any of them is still present, unchanged, afterwards.
pub proof fn lemma_gets_post_grows<C: SparseContainer, R: RecursiveRule<C>>(
    c0: GenericCache<C, R>,
    inputs: Seq<C::Input>,
    c1: GenericCache<C, R>,
)
    requires
        GenericCache::gets_post(c0, inputs, c1),
    ensures
        c0.contents().submap_of(c1.contents()),
        c1.rule() == c0.rule(),
        closed_under(c0.contents(), |k| c0.rule().installs(k)) ==> closed_under(
            c1.contents(),
            |k| c0.rule().installs(k),
        ),
        inputs.len() == 0 ==> c1 == c0,
    decreases inputs.len(),
{
    if inputs.len() != 0 {
        let (mid, r) = choose|mid: GenericCache<C, R>, r: C::Output|
            #[trigger] GenericCache::get_post(c0, inputs[0], mid, r) && GenericCache::gets_post(
                mid,
                inputs.skip(1),
                c1,
            );
        lemma_gets_post_grows(mid, inputs.skip(1), c1);
        vstd::map_lib::lemma_submap_of_trans(c0.contents(), mid.contents(), c1.contents());
    }
}

/// Extending a retrieval sequence on the right by one more retrieval.
pub proof fn lemma_gets_post_push<C: SparseContainer, R: RecursiveRule<C>>(
    c0: GenericCache<C, R>,
    inputs: Seq<C::Input>,
    c1: GenericCache<C, R>,
    input: C::Input,
    c2: GenericCache<C, R>,
    r: C::Output,
)
    requires
        GenericCache::gets_post(c0, inputs, c1),
        GenericCache::get_post(c1, input, c2, r),
    ensures
        GenericCache::gets_post(c0, inputs.push(input), c2),
    decreases inputs.len(),
{
    if inputs.len() == 0 {
        assert(inputs.push(input)[0] == input);
        assert(inputs.push(input).skip(1) =~= Seq::<C::Input>::empty());
        assert(GenericCache::get_post(c0, inputs.push(input)[0], c2, r));
        assert(GenericCache::gets_post(c2, inputs.push(input).skip(1), c2));
    } else {
        let (mid, r0) = choose|mid: GenericCache<C, R>, r0: C::Output|
            #[trigger] GenericCache::get_post(c0, inputs[0], mid, r0) && GenericCache::gets_post(
                mid,
                inputs.skip(1),
                c1,
            );
        lemma_gets_post_push(mid, inputs.skip(1), c1, input, c2, r);
        assert(inputs.push(input)[0] == inputs[0]);
        assert(inputs.push(input).skip(1) =~= inputs.skip(1).push(input));
        assert(GenericCache::get_post(c0, inputs.push(input)[0], mid, r0));
        assert(GenericCache::gets_post(mid, inputs.push(input).skip(1), c2));
    }
}

impl<C: SparseContainer, R: RecursiveRule<C>> crate::fn_cache::FnCache<
    C::Input,
    C::Output,
> for GenericCache<C, R> {
    open spec fn valid(&self) -> bool {
        self.wf()
    }

    open spec fn stored(&self) -> Map<C::Input, C::Output> {
        self.contents()
    }

    open spec fn ready(&self, i: C::Input) -> bool {
        self.rule().pre(i)
    }

    open spec fn admissible(&self, i: C::Input, o: C::Output) -> bool {
        self.rule().rel(i, o)
    }

    fn get(&mut self, input: C::Input) -> (r: &C::Output) {
        GenericCache::get(self, input)
    }
}

impl<C: SparseContainer, R: RecursiveRule<C>> crate::fn_cache::FnCacheMany<
    C::Input,
    C::Output,
> for GenericCache<C, R> where C::Input: Clone {
    fn get_many(&mut self, inputs: Vec<C::Input>) -> (rs: Vec<&C::Output>) {
        GenericCache::get_many(self, inputs)
    }
}

impl<'c, C: SparseContainer, R: RecursiveRule<C>> crate::fn_cache::FnCache<
    C::Input,
    C::Output,
> for RefCache<'c, C, R> {
    open spec fn valid(&self) -> bool {
        self.wf()
    }

    open spec fn stored(&self) -> Map<C::Input, C::Output> {
        self.contents()
    }

    open spec fn ready(&self, i: C::Input) -> bool {
        self.rule().pre(i)
    }

    open spec fn admissible(&self, i: C::Input, o: C::Output) -> bool {
        self.rule().rel(i, o)
    }

    fn get(&mut self, input: C::Input) -> (r: &C::Output) {
        RefCache::get(self, input)
    }
}

impl<'c, C: SparseContainer, R: RecursiveRule<C>> crate::fn_cache::FnCacheMany<
    C::Input,
    C::Output,
> for RefCache<'c, C, R> where C::Input: Clone {
    fn get_many(&mut self, inputs: Vec<C::Input>) -> (rs: Vec<&C::Output>) {
        RefCache::get_many(self, inputs)
    }
}

} // verus!
