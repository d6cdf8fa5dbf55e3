//! The lending iterator protocol, its adapters and its constructors.
use vstd::prelude::*;

use crate::higher_kinded_types::{Feed, HKT};
use adapters::{call_mut1, call_mut2};

pub mod adapters;
pub mod constructors;
pub mod dyn_facade;

pub use adapters::{find_in, find_step, rejects};

use adapters::{
    Filter, FilterMap, FilterMapIntoIter, Fuse, IntoIter, Lending, MapIntoIter, Mapped, Skip, Take,
};

pub use constructors::{
    from_fn, from_iter, repeat, repeat_mut, windows_mut, FromFn, FromIter, Repeat, RepeatMut,
    WindowsMut,
};

verus! {

broadcast use vstd::function::group_function_axioms;

/// The type of the item that `Self` lends for the duration `'next` of a call
/// of `next`.
///
/// The `Bound` parameter is never written: its default, `&'next Self`, lets
/// the item borrow from `Self` without asking that `Self` outlive every
/// lifetime.
pub trait LendingIteratorItem<'next, Bound = &'next Self> {
    type T;
}

/// The item that `I` lends for the duration `'lt`.
pub type Item<'lt, I> = <I as LendingIteratorItem<'lt>>::T;

/// An iterator whose items may borrow from the iterator itself.
///
/// Each call of `next` borrows the iterator exclusively for as long as the
/// item it returns is alive, so that two items of one iterator never
/// coexist. Returning `None` means the iterator is exhausted; well-behaved
/// iterators keep returning `None` after that, and `fuse` enforces it.
pub trait LendingIterator where Self: for<'next> LendingIteratorItem<'next> {
    /// The well-formedness of a state; `next` keeps it.
    spec fn wf(&self) -> bool;

    /// What one call of `next` does: from the state `old` it leaves the state
    /// `new` and returns `r`.
    spec fn next_spec<'a>(old: &Self, new: &Self, r: Option<Item<'a, Self>>) -> bool where
        Self: 'a,
    ;

    /// An upper bound on the number of items still to come, where one is
    /// known.
    spec fn bound(&self) -> Option<nat>;

    /// Yields the next item, or `None` when exhausted.
    fn next(&mut self) -> (r: Option<Item<'_, Self>>)
        requires
            old(self).wf(),
        ensures
            (*final(self)).wf(),
            Self::next_spec(old(self), final(self), r),
            old(self).bound() matches Some(b) ==> (*final(self)).bound() matches Some(c) && c
                <= b && (r is Some ==> c < b),
    ;

    /// Borrows the iterator, as a lending iterator of its own, so that an
    /// adapter can be applied without giving the iterator away.
    fn by_ref(&mut self) -> (r: &mut Self) where
        Self: Sized,

        ensures
            *r == *old(self),
            *final(self) == *final(r),
    {
        self
    }

    /// Keeps the items that `should_yield` accepts.
    fn filter<F>(self, should_yield: F) -> (r: Filter<Self, F>) where
        Self: Sized,
        F: FnMut(&Item<'_, Self>) -> bool,

        ensures
            r.iter == self,
            r.should_yield == should_yield,
    {
        Filter::new(self, should_yield)
    }

    /// Maps each item through `f`; `M` is the marker of the new item type.
    /// The first argument of `f` is an empty array that only carries the
    /// lifetime of the call.
    fn map<M: ?Sized + HKT, F>(self, f: F) -> (r: Mapped<Self, F, M>) where
        Self: Sized,
        F: for<'n> FnMut([&'n Self; 0], Item<'n, Self>) -> Feed<'n, M>,

        ensures
            r.iter == self,
            r.map == f,
    {
        Mapped::new(self, f)
    }

    /// Maps each item through `f`, dropping those for which it returns
    /// `None`; `M` is the marker of the new item type.
    fn filter_map<M: ?Sized + HKT, F>(self, f: F) -> (r: FilterMap<Self, F, M>) where
        Self: Sized,
        F: for<'n> FnMut([&'n Self; 0], Item<'n, Self>) -> Option<Feed<'n, M>>,

        ensures
            r.iter == self,
            r.map == f,
    {
        FilterMap::new(self, f)
    }

    /// Chooses the marker `M` of a new item type, for a `map` or an
    /// `and_then` that follows.
    fn lending<M: ?Sized + HKT>(self) -> (r: Lending<Self, M>) where
        Self: Sized,

        ensures
            r.iter == self,
    {
        Lending { iter: self, _marker: core::marker::PhantomData }
    }

    /// Maps each item through `f` to a value that borrows nothing; the
    /// result is a plain iterator.
    fn map_into_iter<F, R>(self, f: F) -> (r: MapIntoIter<Self, F>) where
        Self: Sized,
        F: FnMut(Item<'_, Self>) -> R,

        ensures
            r.0 == self,
            r.1 == f,
    {
        MapIntoIter(self, f)
    }

    /// Maps each item through `f` to an optional value that borrows
    /// nothing; the result is a plain iterator.
    fn filter_map_into_iter<F, R>(self, f: F) -> (r: FilterMapIntoIter<Self, F>) where
        Self: Sized,
        F: FnMut(Item<'_, Self>) -> Option<R>,

        ensures
            r.0 == self,
            r.1 == f,
    {
        FilterMapIntoIter(self, f)
    }

    /// Sees an iterator whose items borrow nothing as a plain iterator.
    fn into_iter<T>(self) -> (r: IntoIter<Self>) where
        Self: Sized + for<'n> LendingIteratorItem<'n, T = T>,

        ensures
            r.0 == self,
    {
        IntoIter(self)
    }

    /// Skips the first `count` items, lazily: on the first call of `next`.
    fn skip(self, count: usize) -> (r: Skip<Self>) where
        Self: Sized,

        ensures
            r.iter == self,
            r.to_skip == count,
    {
        Skip::new(self, count)
    }

    /// Yields at most `count` items.
    fn take(self, count: usize) -> (r: Take<Self>) where
        Self: Sized,

        ensures
            r.inner() == self,
            r.remaining() == count,
    {
        Take::new(self, count)
    }

    /// Returns `None` for good once the iterator has returned it once.
    fn fuse(self) -> (r: Fuse<Self>) where
        Self: Sized,

        ensures
            r.iter == self,
            !r.done,
    {
        Fuse::new(self)
    }
}

/// `n` calls of `next`, each of them yielding an item, take `s` to `t`.
pub open spec fn advances<'a, I: LendingIterator + 'a>(s: I, t: I, n: nat) -> bool
    decreases n,
{
    if n == 0 {
        s == t
    } else {
        exists|m: I, x: Item<'a, I>|
            advances::<'a, I>(s, m, (n - 1) as nat) && #[trigger] I::next_spec(&m, &t, Some(x))
    }
}

/// The methods that go through items, for every lending iterator.
pub trait LendingIteratorExt: LendingIterator + Sized {
    /// Skips `n` items and yields the next one; returns `None` where the
    /// iterator runs out first.
    fn nth(&mut self, n: usize) -> (r: Option<Item<'_, Self>>)
        requires
            old(self).wf(),
        ensures
            (*final(self)).wf(),
            nth_spec(*old(self), *final(self), n as nat, r),
    {
        if skip_items(self, n) {
            return None;
        }
        self.next()
    }

    /// The number of items until the iterator runs out.
    fn count(self) -> (r: usize)
        requires
            self.wf(),
            self.bound() matches Some(b) && b <= usize::MAX,
        ensures
            exists|m: Self, t: Self|
                advances(self, m, r as nat) && #[trigger] Self::next_spec(&m, &t, None),
    {
        let mut it = self;
        let ghost start = it;
        let ghost b0 = start.bound()->0;
        let mut n: usize = 0;
        loop
            invariant
                start == self,
                it.wf(),
                advances(start, it, n as nat),
                it.bound() matches Some(c) && c + n <= b0,
                b0 <= usize::MAX,
            decreases it.bound()->0,
        {
            let ghost prev = it;
            let ghost mut gr: Option<Item<'_, Self>> = None;
            let yielded = {
                let r = it.next();
                proof {
                    gr = r;
                }
                r.is_some()
            };
            if !yielded {
                proof {
                    assert(Self::next_spec(&prev, &it, None));
                    assert(advances(self, prev, n as nat));
                }
                return n;
            }
            proof {
                assert(Self::next_spec(&prev, &it, Some(gr->0)));
            }
            n = n + 1;
        }
    }

    /// Returns the first item that `predicate` accepts, going through the
    /// ones before it; `None` where the iterator runs out first.
    fn find<F>(&mut self, predicate: F) -> (r: Option<Item<'_, Self>>) where
        F: FnMut(&Item<'_, Self>) -> bool,

        requires
            old(self).wf(),
            old(self).bound() is Some,
            forall|x: Item<'_, Self>| call_requires(predicate, (&x,)),
        ensures
            (*final(self)).wf(),
            exists|k: nat, m: Self|
                {
                    &&& #[trigger] rejects(*old(self), m, k, predicate)
                    &&& match r {
                        Some(x) => Self::next_spec(&m, final(self), Some(x)) && call_ensures(
                            predicate,
                            (&x,),
                            true,
                        ),
                        None => Self::next_spec(&m, final(self), None),
                    }
                },
    {
        let mut predicate = predicate;
        find_in(self, &mut predicate)
    }

    /// Feeds every item to `f`, with the value returned so far, starting from
    /// `init`; returns the last value.
    fn fold<Acc, F>(self, init: Acc, f: F) -> (r: Acc) where
        F: FnMut(Acc, Item<'_, Self>) -> Acc,

        requires
            self.wf(),
            self.bound() is Some,
            forall|a: Acc, x: Item<'_, Self>| call_requires(f, (a, x)),
        ensures
            exists|n: nat, m: Self, t: Self|
                #![trigger folds(self, m, init, r, n, f), Self::next_spec(&m, &t, None)]
                folds(self, m, init, r, n, f) && Self::next_spec(&m, &t, None),
    {
        let mut it = self;
        let mut acc = init;
        let mut g = f;
        let ghost start = it;
        let ghost f0 = g;
        let ghost mut n: nat = 0;
        loop
            invariant
                start == self,
                f0 == f,
                g == f0,
                forall|a: Acc, x: Item<'_, Self>| call_requires(f0, (a, x)),
                it.wf(),
                it.bound() is Some,
                folds(start, it, init, acc, n, f0),
            decreases it.bound()->0,
        {
            let ghost prev = it;
            let ghost pacc = acc;
            let ghost mut gx: Option<Item<'_, Self>> = None;
            let outcome = match it.next() {
                Some(x) => {
                    proof {
                        gx = Some(x);
                    }
                    Ok(call_mut2(&mut g, acc, x))
                },
                None => Err(acc),
            };
            match outcome {
                Ok(a) => {
                    acc = a;
                    proof {
                        assert(Self::next_spec(&prev, &it, gx));
                        assert(call_ensures(f0, (pacc, gx->0), acc));
                        assert(folds(start, prev, init, pacc, ((n + 1) - 1) as nat, f0));
                        assert(folds(start, it, init, acc, n + 1, f0));
                        n = n + 1;
                    }
                },
                Err(a) => {
                    proof {
                        assert(Self::next_spec(&prev, &it, None));
                        assert(folds(self, prev, init, a, n, f));
                        assert(exists|n: nat, m: Self, t: Self|
                            #![trigger folds(self, m, init, a, n, f), Self::next_spec(&m, &t, None)]
                            folds(self, m, init, a, n, f) && Self::next_spec(&m, &t, None));
                    }
                    return a;
                },
            }
        }
    }

    /// Like `fold`, with a function that may fail: stops at the first
    /// error and returns it.
    fn try_fold<Acc, E, F>(&mut self, init: Acc, f: F) -> (r: Result<Acc, E>) where
        F: FnMut(Acc, Item<'_, Self>) -> Result<Acc, E>,

        requires
            old(self).wf(),
            old(self).bound() is Some,
            forall|a: Acc, x: Item<'_, Self>| call_requires(f, (a, x)),
        ensures
            (*final(self)).wf(),
            try_fold_spec(*old(self), *final(self), init, f, r),
    {
        let mut acc = init;
        let mut g = f;
        let ghost start = *self;
        let ghost f0 = g;
        let ghost mut n: nat = 0;
        loop
            invariant
                start == *old(self),
                f0 == f,
                g == f0,
                forall|a: Acc, x: Item<'_, Self>| call_requires(f0, (a, x)),
                self.wf(),
                self.bound() is Some,
                try_folds(start, *self, init, acc, n, f0),
            decreases self.bound()->0,
        {
            let ghost prev = *self;
            let ghost mut gx: Option<Item<'_, Self>> = None;
            let ghost pacc = acc;
            let outcome = {
                let u = self.next();
                match u {
                    Some(x) => {
                        proof {
                            gx = Some(x);
                        }
                        Ok(call_mut2(&mut g, acc, x))
                    },
                    None => {
                        proof {
                            assert(has_resolved(u));
                        }
                        Err(acc)
                    },
                }
            };
            match outcome {
                Ok(Ok(a)) => {
                    acc = a;
                    proof {
                        assert(Self::next_spec(&prev, self, gx));
                        assert(call_ensures(f0, (pacc, gx->0), Ok::<Acc, E>(acc)));
                        assert(try_folds(start, prev, init, pacc, ((n + 1) - 1) as nat, f0));
                        assert(try_folds(start, *self, init, acc, n + 1, f0));
                        n = n + 1;
                    }
                },
                Ok(Err(e)) => {
                    proof {
                        assert(Self::next_spec(&prev, self, gx));
                        assert(call_ensures(f0, (pacc, gx->0), Err::<Acc, E>(e)));
                        assert(try_folds(*old(self), prev, init, pacc, n, f));
                    }
                    return Err(e);
                },
                Err(a) => {
                    proof {
                        assert(Self::next_spec(&prev, self, None));
                        assert(try_folds(*old(self), prev, init, a, n, f));
                    }
                    return Ok(a);
                },
            }
        }
    }

    /// Whether `predicate` accepts every item; stops at the first it
    /// rejects.
    fn all<F>(&mut self, predicate: F) -> (r: bool) where
        F: FnMut(Item<'_, Self>) -> bool,

        requires
            old(self).wf(),
            old(self).bound() is Some,
            forall|x: Item<'_, Self>| call_requires(predicate, (x,)),
        ensures
            (*final(self)).wf(),
            scan_spec(*old(self), *final(self), predicate, true, !r),
    {
        let mut predicate = predicate;
        !scan_for(self, &mut predicate, false)
    }

    /// Whether `predicate` accepts some item; stops at the first it accepts.
    fn any<F>(&mut self, predicate: F) -> (r: bool) where
        F: FnMut(Item<'_, Self>) -> bool,

        requires
            old(self).wf(),
            old(self).bound() is Some,
            forall|x: Item<'_, Self>| call_requires(predicate, (x,)),
        ensures
            (*final(self)).wf(),
            scan_spec(*old(self), *final(self), predicate, false, r),
    {
        let mut predicate = predicate;
        scan_for(self, &mut predicate, true)
    }

    /// Calls `f` on every item, until the iterator runs out.
    fn for_each<F>(self, f: F) where
        F: FnMut(Item<'_, Self>),

        requires
            self.wf(),
            self.bound() is Some,
            forall|x: Item<'_, Self>| call_requires(f, (x,)),
        ensures
            exists|n: nat, m: Self, t: Self|
                #![trigger answers(self, m, n, f, ()), Self::next_spec(&m, &t, None)]
                answers(self, m, n, f, ()) && Self::next_spec(&m, &t, None),
    {
        let mut it = self;
        let mut g = f;
        let ghost start = it;
        let ghost mut n: nat = 0;
        loop
            invariant
                start == self,
                it.wf(),
                it.bound() is Some,
                g == f,
                forall|x: Item<'_, Self>| call_requires(f, (x,)),
                answers(start, it, n, f, ()),
            decreases it.bound()->0,
        {
            let ghost prev = it;
            let ghost mut gx: Option<Item<'_, Self>> = None;
            let more = match it.next() {
                Some(x) => {
                    proof {
                        gx = Some(x);
                    }
                    call_mut1(&mut g, x);
                    true
                },
                None => false,
            };
            if !more {
                proof {
                    assert(Self::next_spec(&prev, &it, None));
                    assert(answers(self, prev, n, f, ()));
                }
                return ;
            }
            proof {
                assert(Self::next_spec(&prev, &it, gx));
                assert(call_ensures(f, (gx->0,), ()));
                assert(answers(start, it, n + 1, f, ()));
                n = n + 1;
            }
        }
    }

    /// Calls `f` on every item, stopping at the first error, which it
    /// returns.
    fn try_for_each<E, F>(&mut self, f: F) -> (r: Result<(), E>) where
        F: FnMut(Item<'_, Self>) -> Result<(), E>,

        requires
            old(self).wf(),
            old(self).bound() is Some,
            forall|x: Item<'_, Self>| call_requires(f, (x,)),
        ensures
            (*final(self)).wf(),
            match r {
                Ok(_) => exists|n: nat, m: Self|
                    #![trigger answers(*old(self), m, n, f, Ok::<(), E>(()))]
                    answers(*old(self), m, n, f, Ok::<(), E>(())) && Self::next_spec(
                        &m,
                        final(self),
                        None,
                    ),
                Err(_) => exists|n: nat, m: Self, x: Item<'_, Self>|
                    #![trigger answers(*old(self), m, n, f, Ok::<(), E>(())), Self::next_spec(&m, final(self), Some(x))]
                    answers(*old(self), m, n, f, Ok::<(), E>(())) && Self::next_spec(
                        &m,
                        final(self),
                        Some(x),
                    ) && call_ensures(f, (x,), r),
            },
    {
        let mut g = f;
        let ghost start = *self;
        let ghost mut n: nat = 0;
        loop
            invariant
                start == *old(self),
                g == f,
                forall|x: Item<'_, Self>| call_requires(f, (x,)),
                self.wf(),
                self.bound() is Some,
                answers(start, *self, n, f, Ok::<(), E>(())),
            decreases self.bound()->0,
        {
            let ghost prev = *self;
            let ghost mut gx: Option<Item<'_, Self>> = None;
            let outcome = match self.next() {
                Some(x) => {
                    proof {
                        gx = Some(x);
                    }
                    Some(call_mut1(&mut g, x))
                },
                None => None,
            };
            match outcome {
                Some(res) => {
                    proof {
                        assert(Self::next_spec(&prev, self, gx));
                        assert(call_ensures(f, (gx->0,), res));
                    }
                    if res.is_err() {
                        proof {
                            assert(answers(*old(self), prev, n, f, Ok::<(), E>(())));
                        }
                        return res;
                    }
                    proof {
                        let u = res->Ok_0;
                        assert(u == ());
                        assert(res == Ok::<(), E>(()));
                        assert(answers(start, *self, n + 1, f, Ok::<(), E>(())));
                        n = n + 1;
                    }
                },
                None => {
                    proof {
                        assert(Self::next_spec(&prev, self, None));
                        assert(answers(*old(self), prev, n, f, Ok::<(), E>(())));
                    }
                    return Ok(());
                },
            }
        }
    }

    /// The index of the first item that `predicate` accepts, going through
    /// the ones before it; `None` where the iterator runs out first.
    fn position<F>(&mut self, predicate: F) -> (r: Option<usize>) where
        F: FnMut(Item<'_, Self>) -> bool,

        requires
            old(self).wf(),
            old(self).bound() matches Some(b) && b <= usize::MAX,
            forall|x: Item<'_, Self>| call_requires(predicate, (x,)),
        ensures
            (*final(self)).wf(),
            match r {
                Some(_) => exists|k: nat, m: Self, x: Item<'_, Self>|
                    #![trigger answers(*old(self), m, k, predicate, false), Self::next_spec(&m, final(self), Some(x))]
                    r == Some(k as usize) && answers(*old(self), m, k, predicate, false) && Self::next_spec(
                        &m,
                        final(self),
                        Some(x),
                    ) && call_ensures(predicate, (x,), true),
                None => exists|n: nat, m: Self|
                    #![trigger answers(*old(self), m, n, predicate, false)]
                    answers(*old(self), m, n, predicate, false) && Self::next_spec(
                        &m,
                        final(self),
                        None,
                    ),
            },
    {
        let mut g = predicate;
        let ghost start = *self;
        let ghost b0 = start.bound()->0;
        let mut k: usize = 0;
        loop
            invariant
                start == *old(self),
                g == predicate,
                forall|x: Item<'_, Self>| call_requires(predicate, (x,)),
                self.wf(),
                self.bound() matches Some(c) && c + k <= b0,
                b0 <= usize::MAX,
                answers(start, *self, k as nat, predicate, false),
            decreases self.bound()->0,
        {
            let ghost prev = *self;
            let ghost mut gx: Option<Item<'_, Self>> = None;
            let outcome = match self.next() {
                Some(x) => {
                    proof {
                        gx = Some(x);
                    }
                    Some(call_mut1(&mut g, x))
                },
                None => None,
            };
            match outcome {
                Some(false) => {
                    proof {
                        assert(Self::next_spec(&prev, self, gx));
                        assert(call_ensures(predicate, (gx->0,), false));
                        assert(answers(start, *self, (k + 1) as nat, predicate, false));
                    }
                    k = k + 1;
                },
                Some(true) => {
                    proof {
                        assert(Self::next_spec(&prev, self, gx));
                        assert(call_ensures(predicate, (gx->0,), true));
                        assert(answers(*old(self), prev, k as nat, predicate, false));
                    }
                    return Some(k);
                },
                None => {
                    proof {
                        assert(Self::next_spec(&prev, self, None));
                        assert(answers(*old(self), prev, k as nat, predicate, false));
                    }
                    return None;
                },
            }
        }
    }
}

impl<I: LendingIterator> LendingIteratorExt for I {

}

/// `n` calls of `next` take `s` to `t`, and feeding their items to `f`,
/// with the value returned so far, takes `a` to `b`.
pub open spec fn folds<'a, I: LendingIterator + 'a, Acc, F>(
    s: I,
    t: I,
    a: Acc,
    b: Acc,
    n: nat,
    f: F,
) -> bool where F: FnMut(Acc, Item<'_, I>) -> Acc
    decreases n,
{
    if n == 0 {
        s == t && a == b
    } else {
        exists|m: I, c: Acc, x: Item<'a, I>|
            #![trigger I::next_spec(&m, &t, Some(x)), call_ensures(f, (c, x), b)]
            folds::<'a, I, Acc, F>(s, m, a, c, (n - 1) as nat, f) && I::next_spec(&m, &t, Some(x))
                && call_ensures(f, (c, x), b)
    }
}

/// Like `folds`, for a function that may fail: each of the `n` calls of `f`
/// succeeded.
pub open spec fn try_folds<'a, I: LendingIterator + 'a, Acc, E, F>(
    s: I,
    t: I,
    a: Acc,
    b: Acc,
    n: nat,
    f: F,
) -> bool where F: FnMut(Acc, Item<'_, I>) -> Result<Acc, E>
    decreases n,
{
    if n == 0 {
        s == t && a == b
    } else {
        exists|m: I, c: Acc, x: Item<'a, I>|
            #![trigger I::next_spec(&m, &t, Some(x)), call_ensures(f, (c, x), Ok::<Acc, E>(b))]
            try_folds::<'a, I, Acc, E, F>(s, m, a, c, (n - 1) as nat, f) && I::next_spec(
                &m,
                &t,
                Some(x),
            ) && call_ensures(f, (c, x), Ok::<Acc, E>(b))
    }
}

/// What `try_fold(init, f)` does: from `old` it folds `f` over the items
/// until the iterator runs out, leaving `new` and returning `Ok` of the last
/// value, or until `f` fails, returning that error.
pub open spec fn try_fold_spec<I: LendingIterator, Acc, E, F>(
    old: I,
    new: I,
    init: Acc,
    f: F,
    r: Result<Acc, E>,
) -> bool where F: FnMut(Acc, Item<'_, I>) -> Result<Acc, E> {
    match r {
        Ok(_) => exists|n: nat, m: I, b: Acc|
            #![trigger try_folds(old, m, init, b, n, f), I::next_spec(&m, &new, None)]
            r == Ok::<Acc, E>(b) && try_folds(old, m, init, b, n, f) && I::next_spec(&m, &new, None),
        Err(e) => exists|n: nat, m: I, c: Acc, x: Item<'_, I>|
            #![trigger try_folds(old, m, init, c, n, f), I::next_spec(&m, &new, Some(x))]
            try_folds(old, m, init, c, n, f) && I::next_spec(&m, &new, Some(x)) && call_ensures(
                f,
                (c, x),
                Err::<Acc, E>(e),
            ),
    }
}

/// `n` calls of `next` take `s` to `t`, each of them yielding an item on
/// which `f` returns `out`.
pub open spec fn answers<'a, I: LendingIterator + 'a, F, O>(s: I, t: I, n: nat, f: F, out: O) -> bool where
    F: FnMut(Item<'_, I>) -> O,
    decreases n,
{
    if n == 0 {
        s == t
    } else {
        exists|m: I, x: Item<'a, I>|
            #![trigger I::next_spec(&m, &t, Some(x)), call_ensures(f, (x,), out)]
            answers::<'a, I, F, O>(s, m, (n - 1) as nat, f, out) && I::next_spec(&m, &t, Some(x))
                && call_ensures(f, (x,), out)
    }
}

/// What a scan does: from `old`, it goes through items on which `pred`
/// returns `passed`, and then either meets an item on which it returns the
/// other answer (`found`) or runs out, leaving `new`.
pub open spec fn scan_spec<I: LendingIterator, F>(old: I, new: I, pred: F, passed: bool, found: bool) -> bool where
    F: FnMut(Item<'_, I>) -> bool,
 {
    exists|n: nat, m: I|
        #![trigger answers(old, m, n, pred, passed)]
        answers(old, m, n, pred, passed) && if found {
            exists|x: Item<'_, I>|
                #[trigger] I::next_spec(&m, &new, Some(x)) && call_ensures(pred, (x,), !passed)
        } else {
            I::next_spec(&m, &new, None)
        }
}

/// Goes through the items of `it` until `pred` returns `target` on one;
/// returns whether it met such an item before `it` ran out.
pub fn scan_for<I: LendingIterator, F>(it: &mut I, pred: &mut F, target: bool) -> (found: bool) where
    F: FnMut(Item<'_, I>) -> bool,

    requires
        old(it).wf(),
        old(it).bound() is Some,
        forall|x: Item<'_, I>| call_requires(*old(pred), (x,)),
    ensures
        (*final(it)).wf(),
        *final(pred) == *old(pred),
        scan_spec(*old(it), *final(it), *old(pred), !target, found),
{
    let ghost start = *it;
    let ghost p = *pred;
    let ghost mut n: nat = 0;
    loop
        invariant
            start == *old(it),
            p == *old(pred),
            *pred == p,
            forall|x: Item<'_, I>| call_requires(p, (x,)),
            it.wf(),
            it.bound() is Some,
            answers(start, *it, n, p, !target),
        decreases it.bound()->0,
    {
        let ghost prev = *it;
        let ghost mut gx: Option<Item<'_, I>> = None;
        let outcome = match it.next() {
            Some(x) => {
                proof {
                    gx = Some(x);
                }
                Some(call_mut1(pred, x))
            },
            None => None,
        };
        match outcome {
            Some(v) => {
                proof {
                    assert(I::next_spec(&prev, it, gx));
                    assert(call_ensures(p, (gx->0,), v));
                }
                if v == target {
                    proof {
                        assert(answers(start, prev, n, p, !target));
                    }
                    return true;
                }
                proof {
                    assert(answers(start, *it, n + 1, p, !target));
                    n = n + 1;
                }
            },
            None => {
                proof {
                    assert(I::next_spec(&prev, it, None));
                    assert(answers(start, prev, n, p, !target));
                }
                return false;
            },
        }
    }
}

/// What `nth(n)` does: from `old` it skips `n` items and then does what
/// `next` does, leaving `new` and returning `r`, or it meets `None` while
/// skipping and returns `None`.
pub open spec fn nth_spec<'a, I: LendingIterator + 'a>(old: I, new: I, n: nat, r: Option<Item<'a, I>>) -> bool {
    ||| exists|m: I| #[trigger] advances(old, m, n) && I::next_spec(&m, &new, r)
    ||| r is None && exists|k: nat, m: I|
        k < n && #[trigger] advances(old, m, k) && I::next_spec(&m, &new, None)
}

/// Calls `next` on `it` up to `n` times, stopping at the first `None`;
/// returns whether it met one.
pub fn skip_items<I: LendingIterator>(it: &mut I, n: usize) -> (ended: bool)
    requires
        old(it).wf(),
    ensures
        (*final(it)).wf(),
        !ended ==> advances(*old(it), *final(it), n as nat),
        ended ==> exists|k: nat, m: I|
            k < n && #[trigger] advances(*old(it), m, k) && I::next_spec(&m, final(it), None),
        old(it).bound() matches Some(b) ==> (*final(it)).bound() matches Some(c) && c <= b && (!ended
            ==> c + n <= b),
{
    let ghost start = *it;
    let mut i: usize = 0;
    while i < n
        invariant
            i <= n,
            it.wf(),
            start == *old(it),
            advances(start, *it, i as nat),
            start.bound() matches Some(b) ==> it.bound() matches Some(c) && c + i <= b,
        decreases n - i,
    {
        let ghost prev = *it;
        let ghost mut gr: Option<Item<'_, I>> = None;
        let yielded = {
            let r = it.next();
            proof {
                gr = r;
            }
            r.is_some()
        };
        if !yielded {
            proof {
                assert(I::next_spec(&prev, it, None));
            }
            return true;
        }
        proof {
            let x = gr->0;
            assert(I::next_spec(&prev, it, Some(x)));
            assert(advances(start, *it, (i + 1) as nat));
        }
        i += 1;
    }
    false
}

impl<'next, 'r, I: LendingIterator> LendingIteratorItem<'next> for &'r mut I {
    type T = Item<'next, I>;
}

/// A borrowed lending iterator is one too, and does what the iterator does.
impl<'r, I: LendingIterator> LendingIterator for &'r mut I {
    open spec fn wf(&self) -> bool {
        (**self).wf()
    }

    open spec fn next_spec<'a>(old: &Self, new: &Self, r: Option<Item<'a, I>>) -> bool where
        Self: 'a,
     {
        I::next_spec(&**old, &**new, r)
    }

    open spec fn bound(&self) -> Option<nat> {
        (**self).bound()
    }

    fn next(&mut self) -> (r: Option<Item<'_, I>>) {
        (**self).next()
    }
}

impl<'next, I: LendingIterator> LendingIteratorItem<'next> for Box<I> {
    type T = Item<'next, I>;
}

/// A boxed lending iterator is one too, and does what the iterator does.
impl<I: LendingIterator> LendingIterator for Box<I> {
    open spec fn wf(&self) -> bool {
        (**self).wf()
    }

    open spec fn next_spec<'a>(old: &Self, new: &Self, r: Option<Item<'a, I>>) -> bool where
        Self: 'a,
     {
        I::next_spec(&**old, &**new, r)
    }

    open spec fn bound(&self) -> Option<nat> {
        (**self).bound()
    }

    fn next(&mut self) -> (r: Option<Item<'_, I>>) {
        (**self).next()
    }
}

} // verus!
