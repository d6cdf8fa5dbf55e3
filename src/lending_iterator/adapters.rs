//! Lending iterators built on top of another one, which they own.
use vstd::prelude::*;

use crate::higher_kinded_types::{Feed, HKT};
use crate::lending_iterator::{
    advances, nth_spec, skip_items, Item, LendingIterator, LendingIteratorExt, LendingIteratorItem,
};

verus! {

broadcast use vstd::function::group_function_axioms;

/// Calls `f` on `a`; the function itself stays as it was.
pub(crate) fn call_mut1<A, R, F: FnMut(A) -> R>(f: &mut F, a: A) -> (r: R)
    requires
        call_requires(*old(f), (a,)),
    ensures
        call_ensures(*old(f), (a,), r),
        *final(f) == *old(f),
{
    f(a)
}

/// Calls `f` on `(a, b)`; the function itself stays as it was.
pub(crate) fn call_mut2<A, B, R, F: FnMut(A, B) -> R>(f: &mut F, a: A, b: B) -> (r: R)
    requires
        call_requires(*old(f), (a, b)),
    ensures
        call_ensures(*old(f), (a, b), r),
        *final(f) == *old(f),
{
    f(a, b)
}

/// Yields at most a given number of the items of the iterator it wraps.
pub struct Take<I> {
    iter: I,
    remaining: usize,
}

impl<I> Take<I> {
    /// The iterator taken from.
    pub closed spec fn inner(&self) -> I {
        self.iter
    }

    /// How many more items may still be taken.
    pub closed spec fn remaining(&self) -> nat {
        self.remaining as nat
    }

    /// Takes at most `n` items of `iter`.
    pub fn new(iter: I, n: usize) -> (r: Take<I>)
        ensures
            r.inner() == iter,
            r.remaining() == n,
    {
        Take { iter, remaining: n }
    }
}

impl<I: LendingIterator> Take<I> {
    /// Skips `n` items and yields the next one, within the budget: where
    /// `n` reaches past it, spends what is left of it on the inner iterator
    /// and returns `None`.
    pub fn nth(&mut self, n: usize) -> (r: Option<Item<'_, I>>)
        requires
            old(self).wf(),
        ensures
            (*final(self)).wf(),
            if n < old(self).remaining() {
                &&& final(self).remaining() == old(self).remaining() - n - 1
                &&& nth_spec(old(self).inner(), final(self).inner(), n as nat, r)
            } else {
                &&& r is None
                &&& final(self).remaining() == 0
                &&& old(self).remaining() == 0 ==> final(self).inner() == old(self).inner()
                &&& old(self).remaining() > 0 ==> exists|x: Option<Item<'_, I>>|
                    #[trigger] nth_spec(
                        old(self).inner(),
                        final(self).inner(),
                        (old(self).remaining() - 1) as nat,
                        x,
                    )
            },
    {
        if n < self.remaining {
            self.remaining -= n + 1;
            self.iter.nth(n)
        } else {
            if self.remaining > 0 {
                let k = self.remaining - 1;
                self.remaining = 0;
                let ghost mut gx: Option<Item<'_, I>> = None;
                {
                    let x = self.iter.nth(k);
                    proof {
                        gx = x;
                    }
                }
                assert(nth_spec(old(self).inner(), self.iter, k as nat, gx));
                assert(nth_spec(
                    old(self).inner(),
                    self.inner(),
                    (old(self).remaining() - 1) as nat,
                    gx,
                ));
            }
            None
        }
    }
}

impl<'next, I: LendingIterator> LendingIteratorItem<'next> for Take<I> {
    type T = Item<'next, I>;
}

impl<I: LendingIterator> LendingIterator for Take<I> {
    open spec fn wf(&self) -> bool {
        self.inner().wf()
    }

    open spec fn next_spec<'a>(old: &Self, new: &Self, r: Option<Item<'a, I>>) -> bool where
        Self: 'a,
     {
        if old.remaining() > 0 {
            new.remaining() == old.remaining() - 1 && I::next_spec(&old.inner(), &new.inner(), r)
        } else {
            r is None && new.remaining() == 0 && new.inner() == old.inner()
        }
    }

    open spec fn bound(&self) -> Option<nat> {
        match self.inner().bound() {
            Some(b) => Some(if b < self.remaining() { b } else { self.remaining() }),
            None => Some(self.remaining()),
        }
    }

    /// Once the count is spent, returns `None` without asking the inner
    /// iterator.
    fn next(&mut self) -> (r: Option<Item<'_, I>>) {
        if self.remaining > 0 {
            self.remaining -= 1;
            self.iter.next()
        } else {
            None
        }
    }
}

/// Maps each item of the iterator it wraps through a function; `M` is the
/// marker of the new item type, which may borrow from the iterator too.
pub struct Mapped<I, F, M: ?Sized> {
    /// The iterator mapped over.
    pub iter: I,
    /// The function items go through.
    pub map: F,
    /// The marker of the new item type.
    pub _marker: core::marker::PhantomData<crate::HKT<M>>,
}

impl<I, F, M: ?Sized> Mapped<I, F, M> {
    /// Maps the items of `iter` through `map`.
    pub fn new(iter: I, map: F) -> (r: Mapped<I, F, M>)
        ensures
            r.iter == iter,
            r.map == map,
    {
        Mapped { iter, map, _marker: core::marker::PhantomData }
    }
}

impl<'next, I: LendingIterator, F, M: ?Sized + HKT> LendingIteratorItem<'next> for Mapped<I, F, M> where
    F: for<'n> FnMut([&'n I; 0], Item<'n, I>) -> Feed<'n, M>,
 {
    type T = Feed<'next, M>;
}

impl<I: LendingIterator, F, M: ?Sized + HKT> LendingIterator for Mapped<I, F, M> where
    F: for<'n> FnMut([&'n I; 0], Item<'n, I>) -> Feed<'n, M>,
 {
    open spec fn wf(&self) -> bool {
        &&& self.iter.wf()
        &&& forall|x: Item<'_, I>| call_requires(self.map, ([], x))
    }

    open spec fn next_spec<'a>(old: &Self, new: &Self, r: Option<Feed<'a, M>>) -> bool where
        Self: 'a,
     {
        &&& new.map == old.map
        &&& exists|u: Option<Item<'a, I>>|
            {
                &&& #[trigger] I::next_spec(&old.iter, &new.iter, u)
                &&& match u {
                    Some(x) => r matches Some(y) && call_ensures(old.map, ([], x), y),
                    None => r is None,
                }
            }
    }

    open spec fn bound(&self) -> Option<nat> {
        self.iter.bound()
    }

    /// Applies the function to the item of the inner iterator, if any.
    fn next(&mut self) -> (r: Option<Feed<'_, M>>) {
        match self.iter.next() {
            Some(x) => Some(call_mut2(&mut self.map, [], x)),
            None => None,
        }
    }
}

/// Maps each item of the iterator it wraps through a function that may
/// drop it; `M` is the marker of the new item type.
pub struct FilterMap<I, F, M: ?Sized> {
    /// The iterator mapped over.
    pub iter: I,
    /// The function items go through; `None` drops the item.
    pub map: F,
    /// The marker of the new item type.
    pub _marker: core::marker::PhantomData<crate::HKT<M>>,
}

impl<I, F, M: ?Sized> FilterMap<I, F, M> {
    /// Maps the items of `iter` through `map`, keeping those it keeps.
    pub fn new(iter: I, map: F) -> (r: FilterMap<I, F, M>)
        ensures
            r.iter == iter,
            r.map == map,
    {
        FilterMap { iter, map, _marker: core::marker::PhantomData }
    }
}

impl<'next, I: LendingIterator, F, M: ?Sized + HKT> LendingIteratorItem<'next> for FilterMap<
    I,
    F,
    M,
> where F: for<'n> FnMut([&'n I; 0], Item<'n, I>) -> Option<Feed<'n, M>> {
    type T = Feed<'next, M>;
}

impl<I: LendingIterator, F, M: ?Sized + HKT> LendingIterator for FilterMap<I, F, M> where
    F: for<'n> FnMut([&'n I; 0], Item<'n, I>) -> Option<Feed<'n, M>>,
 {
    open spec fn wf(&self) -> bool {
        &&& self.iter.wf()
        &&& forall|x: Item<'_, I>| call_requires(self.map, ([], x))
    }

    /// One call asks the inner iterator once: its item goes through the
    /// function, and what that returns is the result.
    open spec fn next_spec<'a>(old: &Self, new: &Self, r: Option<Feed<'a, M>>) -> bool where
        Self: 'a,
     {
        &&& new.map == old.map
        &&& exists|u: Option<Item<'a, I>>|
            {
                &&& #[trigger] I::next_spec(&old.iter, &new.iter, u)
                &&& match u {
                    Some(x) => call_ensures(old.map, ([], x), r),
                    None => r is None,
                }
            }
    }

    open spec fn bound(&self) -> Option<nat> {
        self.iter.bound()
    }

    fn next(&mut self) -> (r: Option<Feed<'_, M>>) {
        match self.iter.next() {
            Some(x) => call_mut2(&mut self.map, [], x),
            None => None,
        }
    }
}

/// Skips a number of items of the iterator it wraps, on the first call,
/// then yields the rest. When the inner iterator runs out while skipping,
/// the first call returns `None`.
pub struct Skip<I> {
    /// The iterator skipped over.
    pub iter: I,
    /// How many items the first call still has to skip.
    pub to_skip: usize,
}

impl<I> Skip<I> {
    /// Skips the first `n` items of `iter`.
    pub fn new(iter: I, n: usize) -> (r: Skip<I>)
        ensures
            r.iter == iter,
            r.to_skip == n,
    {
        Skip { iter, to_skip: n }
    }
}

/// Does the skipping that a `Skip` still owes; returns whether the inner
/// iterator ran out meanwhile.
fn ensure_skipped<I: LendingIterator>(it: &mut Skip<I>) -> (ended: bool)
    requires
        old(it).iter.wf(),
    ensures
        final(it).iter.wf(),
        final(it).to_skip == 0,
        !ended ==> advances(old(it).iter, final(it).iter, old(it).to_skip as nat),
        ended ==> exists|k: nat, m: I|
            k < old(it).to_skip && #[trigger] advances(old(it).iter, m, k) && I::next_spec(
                &m,
                &final(it).iter,
                None,
            ),
        old(it).iter.bound() matches Some(b) ==> final(it).iter.bound() matches Some(c) && c <= b,
{
    let n = it.to_skip;
    it.to_skip = 0;
    skip_items(&mut it.iter, n)
}

impl<'next, I: LendingIterator> LendingIteratorItem<'next> for Skip<I> {
    type T = Item<'next, I>;
}

impl<I: LendingIterator> LendingIterator for Skip<I> {
    open spec fn wf(&self) -> bool {
        self.iter.wf()
    }

    open spec fn next_spec<'a>(old: &Self, new: &Self, r: Option<Item<'a, I>>) -> bool where
        Self: 'a,
     {
        &&& new.to_skip == 0
        &&& {
            ||| exists|m: I|
                advances(old.iter, m, old.to_skip as nat) && #[trigger] I::next_spec(
                    &m,
                    &new.iter,
                    r,
                )
            ||| r is None && exists|k: nat, m: I|
                k < old.to_skip && #[trigger] advances(old.iter, m, k) && I::next_spec(
                    &m,
                    &new.iter,
                    None,
                )
        }
    }

    open spec fn bound(&self) -> Option<nat> {
        self.iter.bound()
    }

    /// Does the skipping still owed, then asks the inner iterator.
    fn next(&mut self) -> (r: Option<Item<'_, I>>) {
        if ensure_skipped(self) {
            return None;
        }
        self.iter.next()
    }
}

/// Stops for good at the first `None` of the iterator it wraps, and never
/// asks it again after that.
pub struct Fuse<I> {
    /// The iterator fused.
    pub iter: I,
    /// Whether a `None` was met.
    pub done: bool,
}

impl<I> Fuse<I> {
    /// Fuses `iter`.
    pub fn new(iter: I) -> (r: Fuse<I>)
        ensures
            r.iter == iter,
            !r.done,
    {
        Fuse { iter, done: false }
    }
}

impl<'next, I: LendingIterator> LendingIteratorItem<'next> for Fuse<I> {
    type T = Item<'next, I>;
}

impl<I: LendingIterator> LendingIterator for Fuse<I> {
    open spec fn wf(&self) -> bool {
        self.iter.wf()
    }

    open spec fn next_spec<'a>(old: &Self, new: &Self, r: Option<Item<'a, I>>) -> bool where
        Self: 'a,
     {
        if old.done {
            r is None && new.done && new.iter == old.iter
        } else {
            I::next_spec(&old.iter, &new.iter, r) && new.done == r is None
        }
    }

    open spec fn bound(&self) -> Option<nat> {
        if self.done {
            Some(0)
        } else {
            self.iter.bound()
        }
    }

    /// After the first `None`, returns `None` without asking the inner
    /// iterator.
    fn next(&mut self) -> (r: Option<Item<'_, I>>) {
        if self.done {
            return None;
        }
        let r = self.iter.next();
        if r.is_none() {
            self.done = true;
        }
        r
    }
}

/// One attempt of a search: asks `it` for an item and tests it with
/// `pred`. `Some(r)` ends the search with `r`, an accepted item or `None`
/// where `it` ran out; `None` means the item was rejected.
pub fn find_step<'a, I: LendingIterator, F>(it: &'a mut I, pred: &mut F) -> (r: Option<
    Option<Item<'a, I>>,
>) where F: FnMut(&Item<'_, I>) -> bool
    requires
        old(it).wf(),
        forall|x: Item<'_, I>| call_requires(*old(pred), (&x,)),
    ensures
        (*final(it)).wf(),
        *final(pred) == *old(pred),
        old(it).bound() matches Some(b) ==> (*final(it)).bound() matches Some(c) && c <= b && (r
            != Some(None::<Item<'a, I>>) ==> c < b),
        match r {
            Some(Some(x)) => I::next_spec(old(it), final(it), Some(x)) && call_ensures(
                *old(pred),
                (&x,),
                true,
            ),
            Some(None) => I::next_spec(old(it), final(it), None),
            None => exists|x: Item<'a, I>|
                #[trigger] I::next_spec(old(it), final(it), Some(x)) && call_ensures(
                    *old(pred),
                    (&x,),
                    false,
                ),
        },
{
    match it.next() {
        Some(x) => {
            if call_mut1(pred, &x) {
                Some(Some(x))
            } else {
                None
            }
        },
        None => Some(None),
    }
}

/// Relies on `polonius_the_crab::polonius`: it runs the step on a reborrow
/// of `it`; where the step ends the search, it hands out the step's result,
/// which keeps borrowing `it`, and otherwise it gives `it` back.
#[verifier::external_body]
fn find_step_or_give_back<'a, I: LendingIterator, F>(it: &'a mut I, pred: &mut F) -> (r: Result<
    Option<Item<'a, I>>,
    &'a mut I,
>) where F: FnMut(&Item<'_, I>) -> bool
    requires
        old(it).wf(),
        forall|x: Item<'_, I>| call_requires(*old(pred), (&x,)),
    ensures
        *final(pred) == *old(pred),
        match r {
            Ok(v) => {
                &&& (*final(it)).wf()
                &&& old(it).bound() matches Some(b) ==> (*final(it)).bound() matches Some(c) && c <= b
                    && (v is Some ==> c < b)
                &&& match v {
                    Some(x) => I::next_spec(old(it), final(it), Some(x)) && call_ensures(
                        *old(pred),
                        (&x,),
                        true,
                    ),
                    None => I::next_spec(old(it), final(it), None),
                }
            },
            Err(back) => {
                &&& back.wf()
                &&& *final(back) == *final(it)
                &&& old(it).bound() matches Some(b) ==> back.bound() matches Some(c) && c < b
                &&& exists|x: Item<'a, I>|
                    #[trigger] I::next_spec(old(it), back, Some(x)) && call_ensures(
                        *old(pred),
                        (&x,),
                        false,
                    )
            },
        },
{
    match polonius_the_crab::polonius::<
        _,
        _,
        dyn for<'n> higher_kinded_types::advanced::WithLifetime<'n, Of = Option<Item<'n, I>>>,
    >(it, |it| match find_step(it, pred) {
        Some(r) => polonius_the_crab::PoloniusResult::Borrowing(r),
        None => polonius_the_crab::PoloniusResult::Owned(()),
    }) {
        polonius_the_crab::PoloniusResult::Borrowing(r) => Ok(r),
        polonius_the_crab::PoloniusResult::Owned { input_borrow, .. } => Err(input_borrow),
    }
}

/// `n` calls of `next` take `s` to `t`, each of them yielding an item that
/// `pred` rejects.
pub open spec fn rejects<'a, I: LendingIterator + 'a, F>(s: I, t: I, n: nat, pred: F) -> bool where
    F: FnMut(&Item<'_, I>) -> bool,
    decreases n,
{
    if n == 0 {
        s == t
    } else {
        exists|m: I, x: Item<'a, I>|
            rejects::<'a, I, F>(s, m, (n - 1) as nat, pred) && #[trigger] I::next_spec(
                &m,
                &t,
                Some(x),
            ) && call_ensures(pred, (&x,), false)
    }
}

/// Asks `it` for items until `pred` accepts one, which it returns, or until
/// `it` runs out.
pub fn find_in<'a, I: LendingIterator, F>(it: &'a mut I, pred: &mut F) -> (r: Option<Item<'a, I>>) where
    F: FnMut(&Item<'_, I>) -> bool,

    requires
        old(it).wf(),
        old(it).bound() is Some,
        forall|x: Item<'_, I>| call_requires(*old(pred), (&x,)),
    ensures
        (*final(it)).wf(),
        *final(pred) == *old(pred),
        (*final(it)).bound() matches Some(c) && c <= old(it).bound()->0 && (r is Some ==> c < old(
            it,
        ).bound()->0),
        exists|k: nat, m: I|
            {
                &&& #[trigger] rejects(*old(it), m, k, *old(pred))
                &&& match r {
                    Some(x) => I::next_spec(&m, final(it), Some(x)) && call_ensures(
                        *old(pred),
                        (&x,),
                        true,
                    ),
                    None => I::next_spec(&m, final(it), None),
                }
            },
{
    let ghost start = *it;
    let ghost p = *pred;
    let ghost b0 = it.bound()->0;
    let ghost mut k: nat = 0;
    let mut this = it;
    loop
        invariant
            this.wf(),
            *pred == p,
            p == *old(pred),
            start == *old(it),
            rejects(start, *this, k, p),
            forall|x: Item<'_, I>| call_requires(p, (&x,)),
            this.bound() matches Some(c) && c <= b0,
            b0 == start.bound()->0,
            *final(this) == *final(it),
        decreases this.bound()->0,
    {
        match find_step_or_give_back(this, pred) {
            Ok(r) => {
                return r;
            },
            Err(back) => {
                this = back;
                proof {
                    k = k + 1;
                }
            },
        }
    }
}

/// Yields the items of the iterator it wraps that a predicate accepts.
pub struct Filter<I, F> {
    /// The iterator filtered.
    pub iter: I,
    /// Whether an item is kept.
    pub should_yield: F,
}

impl<I, F> Filter<I, F> {
    /// Keeps the items of `iter` that `should_yield` accepts.
    pub fn new(iter: I, should_yield: F) -> (r: Filter<I, F>)
        ensures
            r.iter == iter,
            r.should_yield == should_yield,
    {
        Filter { iter, should_yield }
    }
}

impl<'next, I: LendingIterator, F> LendingIteratorItem<'next> for Filter<I, F> where
    F: FnMut(&Item<'_, I>) -> bool,
 {
    type T = Item<'next, I>;
}

impl<I: LendingIterator, F> LendingIterator for Filter<I, F> where F: FnMut(&Item<'_, I>) -> bool {
    /// The inner iterator must have a known bound, since one call may go
    /// through all of its items.
    open spec fn wf(&self) -> bool {
        &&& self.iter.wf()
        &&& self.iter.bound() is Some
        &&& forall|x: Item<'_, I>| call_requires(self.should_yield, (&x,))
    }

    /// One call skips the items that the predicate rejects and yields the
    /// first it accepts, or `None` where the inner iterator runs out.
    open spec fn next_spec<'a>(old: &Self, new: &Self, r: Option<Item<'a, I>>) -> bool where
        Self: 'a,
     {
        &&& new.should_yield == old.should_yield
        &&& exists|k: nat, m: I|
            {
                &&& #[trigger] rejects(old.iter, m, k, old.should_yield)
                &&& match r {
                    Some(x) => I::next_spec(&m, &new.iter, Some(x)) && call_ensures(
                        old.should_yield,
                        (&x,),
                        true,
                    ),
                    None => I::next_spec(&m, &new.iter, None),
                }
            }
    }

    open spec fn bound(&self) -> Option<nat> {
        self.iter.bound()
    }

    fn next(&mut self) -> (r: Option<Item<'_, I>>) {
        find_in(&mut self.iter, &mut self.should_yield)
    }
}

/// Once a fused iterator has returned `None`, every later call returns
/// `None`, whatever the iterator inside would have done: in a run of calls
/// where call `i` leads from `states[i]` to `states[i + 1]` and returns
/// `results[i]`, a `None` at `k` is followed by `None` only.
pub proof fn lemma_fuse_exhaustion_is_permanent<'a, I: LendingIterator + 'a>(
    states: Seq<Fuse<I>>,
    results: Seq<Option<Item<'a, I>>>,
    k: int,
)
    requires
        states.len() == results.len() + 1,
        forall|i: int|
            0 <= i < results.len() ==> #[trigger] Fuse::<I>::next_spec(
                &states[i],
                &states[i + 1],
                results[i],
            ),
        0 <= k < results.len(),
        results[k] is None,
    ensures
        forall|j: int| k <= j < results.len() ==> #[trigger] results[j] is None,
{
    assert forall|j: int| k <= j < results.len() implies #[trigger] results[j] is None by {
        lemma_fuse_none_from(states, results, k, j);
    }
}

proof fn lemma_fuse_none_from<'a, I: LendingIterator + 'a>(
    states: Seq<Fuse<I>>,
    results: Seq<Option<Item<'a, I>>>,
    k: int,
    j: int,
)
    requires
        states.len() == results.len() + 1,
        forall|i: int|
            0 <= i < results.len() ==> #[trigger] Fuse::<I>::next_spec(
                &states[i],
                &states[i + 1],
                results[i],
            ),
        0 <= k <= j < results.len(),
        results[k] is None,
    ensures
        results[j] is None,
        states[j + 1].done,
    decreases j - k,
{
    if j > k {
        lemma_fuse_none_from(states, results, k, j - 1);
    }
    assert(Fuse::<I>::next_spec(&states[j], &states[j + 1], results[j]));
}

/// A `take(0)` yields nothing: its call returns `None`, leaves the inner
/// iterator alone, and the next state is again out of budget.
pub proof fn lemma_take_zero_yields_nothing<'a, I: LendingIterator + 'a>(
    s: Take<I>,
    t: Take<I>,
    r: Option<Item<'a, I>>,
)
    requires
        s.remaining() == 0,
        Take::<I>::next_spec(&s, &t, r),
    ensures
        r is None,
        t.remaining() == 0,
        t.inner() == s.inner(),
{
}

/// While budget is left, a `take` does exactly what its inner iterator
/// does, item for item, and spends one unit of budget; so a `take(n)` over
/// fewer than `n` items yields all of them and then runs out with them.
pub proof fn lemma_take_forwards_within_budget<'a, I: LendingIterator + 'a>(
    s: Take<I>,
    t: Take<I>,
    r: Option<Item<'a, I>>,
)
    requires
        s.remaining() > 0,
        Take::<I>::next_spec(&s, &t, r),
    ensures
        I::next_spec(&s.inner(), &t.inner(), r),
        t.remaining() == s.remaining() - 1,
{
}

/// A `skip(n)` whose inner iterator cannot yield `n` items returns `None`
/// on its first call, without yielding anything.
pub proof fn lemma_skip_short_source_yields_nothing<'a, I: LendingIterator + 'a>(
    s: Skip<I>,
    t: Skip<I>,
    r: Option<Item<'a, I>>,
)
    requires
        forall|m: I| !(#[trigger] advances(s.iter, m, s.to_skip as nat)),
        Skip::<I>::next_spec(&s, &t, r),
    ensures
        r is None,
{
}

/// Within its budget, a run of calls on a `take` is a run of calls on its
/// inner iterator: in a run where call `i` leads from `states[i]` to
/// `states[i + 1]` and returns `results[i]`, each call returns exactly what
/// the inner iterator returns from the same state, in order, and the budget
/// falls by one per call. So a `take(n)` over a source of fewer than `n`
/// items yields the source's items and then its `None`.
pub proof fn lemma_take_run_is_source_run<'a, I: LendingIterator + 'a>(
    states: Seq<Take<I>>,
    results: Seq<Option<Item<'a, I>>>,
)
    requires
        states.len() == results.len() + 1,
        forall|i: int|
            0 <= i < results.len() ==> #[trigger] Take::<I>::next_spec(
                &states[i],
                &states[i + 1],
                results[i],
            ),
        results.len() <= states[0].remaining(),
    ensures
        forall|i: int|
            0 <= i < results.len() ==> #[trigger] I::next_spec(
                &states[i].inner(),
                &states[i + 1].inner(),
                results[i],
            ),
        forall|i: int| 0 <= i < states.len() ==> #[trigger] states[i].remaining() == states[0].remaining() - i,
{
    assert forall|i: int| 0 <= i < states.len() implies #[trigger] states[i].remaining()
        == states[0].remaining() - i by {
        lemma_take_budget_at(states, results, i);
    }
    assert forall|i: int| 0 <= i < results.len() implies #[trigger] I::next_spec(
        &states[i].inner(),
        &states[i + 1].inner(),
        results[i],
    ) by {
        lemma_take_budget_at(states, results, i);
        assert(Take::<I>::next_spec(&states[i], &states[i + 1], results[i]));
    }
}

proof fn lemma_take_budget_at<'a, I: LendingIterator + 'a>(
    states: Seq<Take<I>>,
    results: Seq<Option<Item<'a, I>>>,
    i: int,
)
    requires
        states.len() == results.len() + 1,
        forall|i: int|
            0 <= i < results.len() ==> #[trigger] Take::<I>::next_spec(
                &states[i],
                &states[i + 1],
                results[i],
            ),
        results.len() <= states[0].remaining(),
        0 <= i < states.len(),
    ensures
        states[i].remaining() == states[0].remaining() - i,
    decreases i,
{
    if i > 0 {
        let j = i - 1;
        lemma_take_budget_at(states, results, j);
        assert(Take::<I>::next_spec(&states[j], &states[j + 1], results[j]));
    }
}

/// A `skip(n)` over a source that cannot yield `n` items, and that keeps
/// returning `None` once it has returned it, never yields: in a run where
/// call `i` leads from `states[i]` to `states[i + 1]` and returns
/// `results[i]`, every result is `None`.
pub proof fn lemma_skip_short_source_never_yields<'a, I: LendingIterator + 'a>(
    states: Seq<Skip<I>>,
    results: Seq<Option<Item<'a, I>>>,
)
    requires
        states.len() == results.len() + 1,
        forall|i: int|
            0 <= i < results.len() ==> #[trigger] Skip::<I>::next_spec(
                &states[i],
                &states[i + 1],
                results[i],
            ),
        forall|m: I| !(#[trigger] advances(states[0].iter, m, states[0].to_skip as nat)),
        forall|a: I, b: I, c: I, x: Option<Item<'a, I>>|
            #![trigger I::next_spec(&a, &b, None), I::next_spec(&b, &c, x)]
            I::next_spec(&a, &b, None) && I::next_spec(&b, &c, x) ==> x is None,
    ensures
        forall|i: int| 0 <= i < results.len() ==> #[trigger] results[i] is None,
{
    assert forall|i: int| 0 <= i < results.len() implies #[trigger] results[i] is None by {
        lemma_skip_none_at(states, results, i);
    }
}

proof fn lemma_skip_none_at<'a, I: LendingIterator + 'a>(
    states: Seq<Skip<I>>,
    results: Seq<Option<Item<'a, I>>>,
    i: int,
)
    requires
        states.len() == results.len() + 1,
        forall|i: int|
            0 <= i < results.len() ==> #[trigger] Skip::<I>::next_spec(
                &states[i],
                &states[i + 1],
                results[i],
            ),
        forall|m: I| !(#[trigger] advances(states[0].iter, m, states[0].to_skip as nat)),
        forall|a: I, b: I, c: I, x: Option<Item<'a, I>>|
            #![trigger I::next_spec(&a, &b, None), I::next_spec(&b, &c, x)]
            I::next_spec(&a, &b, None) && I::next_spec(&b, &c, x) ==> x is None,
        0 <= i < results.len(),
    ensures
        results[i] is None,
        states[i + 1].to_skip == 0,
        exists|p: I| #[trigger] I::next_spec(&p, &states[i + 1].iter, None::<Item<'a, I>>),
    decreases i,
{
    assert(Skip::<I>::next_spec(&states[i], &states[i + 1], results[i]));
    if i == 0 {
        // the step at which the source ran out while skipping
        let (k, m) = choose|k: nat, m: I|
            k < states[0].to_skip && #[trigger] advances(states[0].iter, m, k) && I::next_spec(
                &m,
                &states[1].iter,
                None,
            );
    } else {
        let j = i - 1;
        lemma_skip_none_at(states, results, j);
        assert(states[j + 1] == states[i]);
        let p = choose|p: I| #[trigger] I::next_spec(&p, &states[i].iter, None::<Item<'a, I>>);
        assert(forall|m: I| advances(states[i].iter, m, 0) ==> m == states[i].iter);
        assert(I::next_spec(&states[i].iter, &states[i + 1].iter, results[i]));
        assert(I::next_spec(&p, &states[i].iter, None::<Item<'a, I>>));
    }
}

/// A `skip(0)` does exactly what its inner iterator does.
pub proof fn lemma_skip_zero_is_passthrough<'a, I: LendingIterator + 'a>(
    s: Skip<I>,
    t: Skip<I>,
    r: Option<Item<'a, I>>,
)
    requires
        s.to_skip == 0,
        Skip::<I>::next_spec(&s, &t, r),
    ensures
        I::next_spec(&s.iter, &t.iter, r),
{
    assert(forall|m: I| advances(s.iter, m, 0) ==> m == s.iter);
}

/// A lending iterator whose items borrow nothing, seen as a plain
/// iterator: `next` yields its items as they are.
pub struct IntoIter<I>(pub I);

impl<I: LendingIterator> IntoIter<I> {
    /// Yields the next item of the lending iterator.
    pub fn next<T>(&mut self) -> (r: Option<T>) where
        I: for<'n> LendingIteratorItem<'n, T = T>,

        requires
            old(self).0.wf(),
        ensures
            final(self).0.wf(),
            I::next_spec(&old(self).0, &final(self).0, r),
    {
        self.0.next()
    }
}

/// A lending iterator mapped, item by item, to values that borrow nothing,
/// as a plain iterator.
pub struct MapIntoIter<I, F>(pub I, pub F);

impl<I: LendingIterator, F> MapIntoIter<I, F> {
    /// Maps the next item through the function.
    pub fn next<R>(&mut self) -> (r: Option<R>) where
        F: FnMut(Item<'_, I>) -> R,

        requires
            old(self).0.wf(),
            forall|x: Item<'_, I>| call_requires(old(self).1, (x,)),
        ensures
            final(self).0.wf(),
            final(self).1 == old(self).1,
            exists|u: Option<Item<'_, I>>|
                {
                    &&& #[trigger] I::next_spec(&old(self).0, &final(self).0, u)
                    &&& match u {
                        Some(x) => r matches Some(y) && call_ensures(old(self).1, (x,), y),
                        None => r is None,
                    }
                },
    {
        match self.0.next() {
            Some(x) => Some(call_mut1(&mut self.1, x)),
            None => None,
        }
    }
}

/// A lending iterator mapped, item by item, to optional values that borrow
/// nothing, as a plain iterator: a `None` of the function ends that call
/// with `None`.
pub struct FilterMapIntoIter<I, F>(pub I, pub F);

impl<I: LendingIterator, F> FilterMapIntoIter<I, F> {
    /// Maps the next item through the function.
    pub fn next<R>(&mut self) -> (r: Option<R>) where
        F: FnMut(Item<'_, I>) -> Option<R>,

        requires
            old(self).0.wf(),
            forall|x: Item<'_, I>| call_requires(old(self).1, (x,)),
        ensures
            final(self).0.wf(),
            final(self).1 == old(self).1,
            exists|u: Option<Item<'_, I>>|
                {
                    &&& #[trigger] I::next_spec(&old(self).0, &final(self).0, u)
                    &&& match u {
                        Some(x) => call_ensures(old(self).1, (x,), r),
                        None => r is None,
                    }
                },
    {
        match self.0.next() {
            Some(x) => call_mut1(&mut self.1, x),
            None => None,
        }
    }
}

/// A lending iterator with the marker `M` of a new item type chosen, ready
/// to be mapped to it without naming the marker again.
pub struct Lending<I, M: ?Sized> {
    /// The iterator to map.
    pub iter: I,
    /// The marker of the new item type.
    pub _marker: core::marker::PhantomData<crate::HKT<M>>,
}

impl<I: LendingIterator, M: ?Sized + HKT> Lending<I, M> {
    /// Maps each item through `f`.
    pub fn map<F>(self, f: F) -> (r: Mapped<I, F, M>) where
        F: for<'n> FnMut([&'n I; 0], Item<'n, I>) -> Feed<'n, M>,

        ensures
            r.iter == self.iter,
            r.map == f,
    {
        Mapped::new(self.iter, f)
    }

    /// Maps each item through `f`, which may drop it.
    pub fn and_then<F>(self, f: F) -> (r: FilterMap<I, F, M>) where
        F: for<'n> FnMut([&'n I; 0], Item<'n, I>) -> Option<Feed<'n, M>>,

        ensures
            r.iter == self.iter,
            r.map == f,
    {
        FilterMap::new(self.iter, f)
    }
}

} // verus!
