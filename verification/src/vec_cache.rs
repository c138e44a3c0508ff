use vstd::prelude::*;

use crate::fn_cache::FnCache;
use crate::generic_cache::Simple;

verus! {

/// Every stored element of the dense sequence `s` satisfies the relation
/// `rel` at its own index.
pub open spec fn filled<O>(s: Seq<O>, rel: spec_fn(usize, O) -> bool) -> bool {
    forall|j: int| 0 <= j < s.len() ==> rel(j as usize, #[trigger] s[j])
}

/// A computation rule for a dense, gapless cache over the indices `0..`,
/// asked for the next unfilled index only, with every earlier index already
/// stored in the borrowed sequence for it to read.
pub trait DenseRule<O>: Sized {
    /// The indices the rule accepts; by default, all of them.
    open spec fn pre(&self, i: usize) -> bool {
        true
    }

    /// The outputs the rule may produce for an index; by default, anything,
    /// which promises nothing of what the cache serves.
    open spec fn rel(&self, i: usize, o: O) -> bool {
        true
    }

    /// Produce the output for `input`, the next unfilled index; the rule may
    /// read any earlier index from `cache` but leaves the sequence as it
    /// found it.
    fn call(&self, cache: &mut Vec<O>, input: &usize) -> (out: O)
        requires
            old(cache)@.len() == *input,
            filled(old(cache)@, |j, v| self.rel(j, v)),
            self.pre(*input),
        ensures
            final(cache)@ == old(cache)@,
            self.rel(*input, out),
    ;
}

impl<O, F: Fn(&usize) -> O> DenseRule<O> for Simple<F> {
    open spec fn pre(&self, i: usize) -> bool {
        call_requires(self.f, (&i,))
    }

    open spec fn rel(&self, i: usize, o: O) -> bool {
        call_ensures(self.f, (&i,), o)
    }

    fn call(&self, cache: &mut Vec<O>, input: &usize) -> (out: O) {
        (self.f)(input)
    }
}

/// What [`Simple`]'s rule means on concrete indices: a plain function may
/// be asked for exactly the indices it accepts, and may produce exactly the
/// outputs it could return.
pub proof fn lemma_simple_dense_spec<O, F: Fn(&usize) -> O>(f: &Simple<F>, i: usize, o: O)
    ensures
        <Simple<F> as DenseRule<O>>::pre(f, i) == call_requires(f.f, (&i,)),
        <Simple<F> as DenseRule<O>>::rel(f, i, o) == call_ensures(f.f, (&i,), o),
{
}

/// A cache for a function, backed by a growable array.
///
/// This cache is optimized for functions which must be calculated in order,
/// so that there can be no gaps in the cache, and use `usize` as an
/// argument: retrieving index `k` first computes and appends every unfilled
/// index up to and including `k`, in increasing order.
///
/// If the function does not start at zero, or does not require every
/// previous value for the next one, consider a hash-backed cache instead.
pub struct VecCache<O, R: DenseRule<O>> {
    cache: Vec<O>,
    f: R,
}

impl<O, F: Fn(&usize) -> O> VecCache<O, Simple<F>> {
    /// Create a cache for the provided function.
    pub fn new(f: F) -> (r: Self)
        ensures
            r.wf(),
            r.entries() == Seq::<O>::empty(),
            r.rule() == (Simple { f }),
    {
        VecCache { cache: Vec::new(), f: Simple { f } }
    }
}

impl<O, R: DenseRule<O>> VecCache<O, R> {
    /// The rule being memoized.
    pub closed spec fn rule(&self) -> R {
        self.f
    }

    /// The outputs stored so far, in index order.
    pub closed spec fn entries(&self) -> Seq<O> {
        self.cache@
    }

    /// The cache is usable: every stored output is one the rule allows at
    /// its index.
    pub open spec fn wf(&self) -> bool {
        filled(self.entries(), |j, v| self.rule().rel(j, v))
    }

    /// Create a cache for the provided recursive rule.
    pub fn recursive(f: R) -> (r: Self)
        ensures
            r.wf(),
            r.entries() == Seq::<O>::empty(),
            r.rule() == f,
    {
        VecCache { cache: Vec::new(), f }
    }

    /// Compute the output for the next unfilled index by invoking the rule.
    fn compute(&mut self, input: usize) -> (out: O)
        requires
            old(self).wf(),
            old(self).entries().len() == input,
            old(self).rule().pre(input),
        ensures
            final(self).wf(),
            final(self).rule() == old(self).rule(),
            final(self).entries() == old(self).entries(),
            old(self).rule().rel(input, out),
    {
        self.f.call(&mut self.cache, &input)
    }

    /// Compute and append every index that is not yet filled, up to and
    /// including `input`, in increasing order, so the fill stays gapless; an
    /// index already filled leaves the cache unchanged.
    fn fill(&mut self, input: usize)
        requires
            old(self).wf(),
            input < usize::MAX,
            forall|j: usize|
                old(self).entries().len() <= j <= input ==> old(self).rule().pre(j),
        ensures
            final(self).wf(),
            final(self).rule() == old(self).rule(),
            final(self).entries().len() >= old(self).entries().len(),
            old(self).entries() == final(self).entries().take(old(self).entries().len() as int),
            input < old(self).entries().len() ==> final(self).entries() == old(self).entries(),
            old(self).entries().len() <= input ==> final(self).entries().len() == input + 1,
            input < final(self).entries().len(),
            old(self).rule().rel(input, final(self).entries()[input as int]),
    {
        let len = self.cache.len();

        if len <= input {
            self.cache.reserve(input - len + 1);
        }
        while self.cache.len() <= input
            invariant
                self.wf(),
                self.rule() == old(self).rule(),
                self.entries().len() >= old(self).entries().len(),
                old(self).entries() == self.entries().take(old(self).entries().len() as int),
                old(self).entries().len() <= input ==> self.entries().len() <= input + 1,
                old(self).entries().len() > input ==> self.entries() == old(self).entries(),
                input < usize::MAX,
                forall|j: usize|
                    old(self).entries().len() <= j <= input ==> old(self).rule().pre(j),
            decreases input + 1 - self.cache.len(),
        {
            let next = self.cache.len();
            let next_val = self.compute(next);
            self.cache.push(next_val);
            proof {
                assert(old(self).entries() =~= self.entries().take(
                    old(self).entries().len() as int,
                ));
            }
        }
    }

    /// Retrieve the value for index `input`. Every index that is not yet
    /// filled, up to and including `input`, is computed in increasing order
    /// and appended, so the fill stays gapless; an index already filled is
    /// returned as stored, with no computation and no change.
    pub fn get(&mut self, input: usize) -> (r: &O)
        requires
            old(self).wf(),
            input < usize::MAX,
            forall|j: usize|
                old(self).entries().len() <= j <= input ==> old(self).rule().pre(j),
        ensures
            final(self).wf(),
            final(self).rule() == old(self).rule(),
            final(self).entries().len() >= old(self).entries().len(),
            old(self).entries() == final(self).entries().take(old(self).entries().len() as int),
            input < old(self).entries().len() ==> final(self).entries() == old(self).entries(),
            old(self).entries().len() <= input ==> final(self).entries().len() == input + 1,
            *r == final(self).entries()[input as int],
            old(self).rule().rel(input, *r),
    {
        self.fill(input);
        &self.cache[input]
    }

    /// Retrieve the values for the indices in `inputs`, in order from left
    /// to right, filling any gaps up to each index as [`Self::get`] does,
    /// then hand back references positionally corresponding to `inputs`.
    /// The sequence grows only as far as the largest requested index; the
    /// references are only collected once all retrievals are done.
    pub fn get_many(&mut self, inputs: Vec<usize>) -> (rs: Vec<&O>)
        requires
            old(self).wf(),
            forall|t: int| 0 <= t < inputs@.len() ==> #[trigger] inputs@[t] < usize::MAX,
            forall|t: int, j: usize|
                0 <= t < inputs@.len() && old(self).entries().len() <= j <= #[trigger] inputs@[t]
                    ==> #[trigger] old(self).rule().pre(j),
        ensures
            final(self).wf(),
            final(self).rule() == old(self).rule(),
            old(self).entries() == final(self).entries().take(old(self).entries().len() as int),
            rs@.len() == inputs@.len(),
            forall|t: int|
                0 <= t < inputs@.len() ==> #[trigger] inputs@[t] < final(self).entries().len(),
            forall|t: int|
                0 <= t < rs@.len() ==> *(#[trigger] rs@[t]) == final(self).entries()[inputs@[t] as int]
                    && old(self).rule().rel(inputs@[t], *rs@[t]),
            final(self).entries().len() == old(self).entries().len() || exists|t: int|
                0 <= t < inputs@.len() && final(self).entries().len() == #[trigger] inputs@[t] + 1,
    {
        let ghost len0 = self.entries().len() as int;
        let len = self.cache.len();
        let mut max: usize = 0;
        let mut i: usize = 0;
        while i < inputs.len()
            invariant
                i <= inputs.len(),
                forall|t: int| 0 <= t < inputs@.len() ==> #[trigger] inputs@[t] < usize::MAX,
                max < usize::MAX,
            decreases inputs.len() - i,
        {
            if inputs[i] > max {
                max = inputs[i];
            }
            i += 1;
        }
        if len <= max {
            self.cache.reserve(max - len + 1);
        }
        let mut j: usize = 0;
        while j < inputs.len()
            invariant
                j <= inputs.len(),
                len0 == old(self).entries().len() as int,
                self.wf(),
                self.rule() == old(self).rule(),
                self.entries().len() >= len0,
                old(self).entries() == self.entries().take(len0),
                forall|t: int| 0 <= t < inputs@.len() ==> #[trigger] inputs@[t] < usize::MAX,
                forall|t: int, jj: usize|
                    0 <= t < inputs@.len() && len0 <= jj <= #[trigger] inputs@[t]
                        ==> #[trigger] old(self).rule().pre(jj),
                forall|t: int| 0 <= t < j ==> #[trigger] inputs@[t] < self.entries().len(),
                self.entries().len() == len0 || exists|t: int|
                    0 <= t < j && self.entries().len() == #[trigger] inputs@[t] + 1,
            decreases inputs.len() - j,
        {
            let ghost prev = *self;
            let k = inputs[j];
            self.get(k);
            proof {
                assert(self.entries().take(len0).len() == len0);
                assert forall|ii: int| 0 <= ii < len0 implies old(self).entries()[ii]
                    == self.entries().take(len0)[ii] by {
                    assert(old(self).entries()[ii] == prev.entries().take(len0)[ii]);
                    assert(prev.entries().take(len0)[ii] == prev.entries()[ii]);
                    assert(prev.entries()[ii] == self.entries().take(
                        prev.entries().len() as int,
                    )[ii]);
                    assert(self.entries().take(prev.entries().len() as int)[ii]
                        == self.entries()[ii]);
                    assert(self.entries().take(len0)[ii] == self.entries()[ii]);
                }
                assert(old(self).entries() =~= self.entries().take(len0));
            }
            j += 1;
        }
        let mut rs: Vec<&O> = Vec::new();
        let mut i: usize = 0;
        while i < inputs.len()
            invariant
                i <= inputs.len(),
                self.wf(),
                self.rule() == old(self).rule(),
                rs@.len() == i,
                forall|t: int| 0 <= t < inputs@.len() ==> #[trigger] inputs@[t] < self.entries().len(),
                forall|t: int|
                    0 <= t < i ==> *(#[trigger] rs@[t]) == self.entries()[inputs@[t] as int],
            decreases inputs.len() - i,
        {
            let r = &self.cache[inputs[i]];
            rs.push(r);
            i += 1;
        }
        rs
    }

    /// Get a reference to the underlying array, letting you use functions
    /// exclusive to it, as long as they only need `&self`.
    pub fn cache(&self) -> (r: &Vec<O>)
        ensures
            r@ == self.entries(),
    {
        &self.cache
    }

    /// Clears the cache, removing all values.
    /// Keeps the allocated memory for reuse.
    pub fn clear(&mut self)
        ensures
            final(self).wf(),
            final(self).rule() == old(self).rule(),
            final(self).entries() == Seq::<O>::empty(),
    {
        self.cache.clear();
    }

    /// Returns the number of elements in the cache.
    pub fn len(&self) -> (r: usize)
        ensures
            r == self.entries().len(),
    {
        self.cache.len()
    }

    /// Reserves capacity for at least `additional` more elements to be
    /// inserted in the cache. The collection may reserve more space to avoid
    /// frequent reallocations. A capacity hint only: the stored values are
    /// untouched.
    pub fn reserve(&mut self, additional: usize)
        ensures
            final(self).wf() == old(self).wf(),
            final(self).rule() == old(self).rule(),
            final(self).entries() == old(self).entries(),
    {
        self.cache.reserve(additional)
    }
}

/// The dense sequence `s` read as a map from each filled index to its
/// element.
pub open spec fn seq_as_map<O>(s: Seq<O>) -> Map<usize, O> {
    Map::new(|i: usize| i < s.len(), |i: usize| s[i as int])
}

/// Growing a dense sequence on the right only adds associations to the map
/// it is read as.
proof fn lemma_seq_as_map_prefix<O>(a: Seq<O>, b: Seq<O>)
    requires
        a.len() <= b.len(),
        a == b.take(a.len() as int),
    ensures
        seq_as_map(a).submap_of(seq_as_map(b)),
{
    assert forall|k: usize| seq_as_map(a).dom().contains(k) implies seq_as_map(b).dom().contains(
        k,
    ) && seq_as_map(b)[k] == seq_as_map(a)[k] by {
        assert(k < a.len());
        assert(a[k as int] == b.take(a.len() as int)[k as int]);
    }
}

impl<O, R: DenseRule<O>> crate::fn_cache::FnCache<usize, O> for VecCache<O, R> {
    open spec fn valid(&self) -> bool {
        self.wf()
    }

    open spec fn stored(&self) -> Map<usize, O> {
        seq_as_map(self.entries())
    }

    open spec fn ready(&self, i: usize) -> bool {
        &&& i < usize::MAX
        &&& forall|j: usize| self.entries().len() <= j <= i ==> self.rule().pre(j)
    }

    open spec fn admissible(&self, i: usize, o: O) -> bool {
        self.rule().rel(i, o)
    }

    fn get(&mut self, input: usize) -> (r: &O) {
        self.fill(input);
        proof {
            lemma_seq_as_map_prefix(old(self).entries(), self.entries());
            assert forall|j: usize| old(self).ready(j) implies self.ready(j) by {
                assert forall|jj: usize|
                    self.entries().len() <= jj <= j implies self.rule().pre(jj) by {
                    assert(old(self).entries().len() <= jj);
                }
            }
        }
        &self.cache[input]
    }
}

impl<O, R: DenseRule<O>> crate::fn_cache::FnCacheMany<usize, O> for VecCache<O, R> {
    fn get_many(&mut self, inputs: Vec<usize>) -> (rs: Vec<&O>) {
        let len = self.cache.len();
        let mut max: usize = 0;
        let mut i: usize = 0;
        while i < inputs.len()
            invariant
                i <= inputs.len(),
                forall|t: int| 0 <= t < inputs@.len() ==> old(self).ready(#[trigger] inputs@[t]),
                max < usize::MAX,
            decreases inputs.len() - i,
        {
            if inputs[i] > max {
                max = inputs[i];
            }
            i += 1;
        }
        if len <= max {
            self.cache.reserve(max - len + 1);
        }
        let mut j: usize = 0;
        while j < inputs.len()
            invariant
                j <= inputs.len(),
                self.wf(),
                self.rule() == old(self).rule(),
                self.entries().len() >= old(self).entries().len(),
                old(self).entries() == self.entries().take(old(self).entries().len() as int),
                forall|t: int| 0 <= t < inputs@.len() ==> old(self).ready(#[trigger] inputs@[t]),
                forall|t: int| 0 <= t < j ==> #[trigger] inputs@[t] < self.entries().len(),
            decreases inputs.len() - j,
        {
            let ghost prev = *self;
            let k = inputs[j];
            self.fill(k);
            proof {
                assert forall|ii: int|
                    0 <= ii < old(self).entries().len() implies old(self).entries()[ii]
                    == self.entries().take(old(self).entries().len() as int)[ii] by {
                    assert(old(self).entries()[ii] == prev.entries().take(
                        old(self).entries().len() as int,
                    )[ii]);
                    assert(prev.entries()[ii] == self.entries().take(
                        prev.entries().len() as int,
                    )[ii]);
                }
                assert(old(self).entries() =~= self.entries().take(
                    old(self).entries().len() as int,
                ));
            }
            j += 1;
        }
        proof {
            lemma_seq_as_map_prefix(old(self).entries(), self.entries());
            assert forall|jj2: usize| old(self).ready(jj2) implies self.ready(jj2) by {
                assert forall|jj: usize|
                    self.entries().len() <= jj <= jj2 implies self.rule().pre(jj) by {
                    assert(old(self).entries().len() <= jj);
                }
            }
        }
        let mut rs: Vec<&O> = Vec::new();
        let mut i: usize = 0;
        while i < inputs.len()
            invariant
                i <= inputs.len(),
                self.wf(),
                self.rule() == old(self).rule(),
                rs@.len() == i,
                forall|t: int|
                    0 <= t < inputs@.len() ==> #[trigger] inputs@[t] < self.entries().len(),
                forall|t: int|
                    0 <= t < i ==> *(#[trigger] rs@[t]) == self.entries()[inputs@[t] as int],
            decreases inputs.len() - i,
        {
            let r = &self.cache[inputs[i]];
            rs.push(r);
            i += 1;
        }
        rs
    }
}

} // verus!
