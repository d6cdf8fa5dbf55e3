//! Lending iterators behind a pointer, with their concrete type erased.
use vstd::prelude::*;

use crate::higher_kinded_types::{Feed, WithLifetime, HKT};
use crate::lending_iterator::{Item, LendingIterator, LendingIteratorItem};

verus! {

/// The object-safe face of a lending iterator whose items, at each
/// lifetime `'n`, are `Feed<'n, M>`. Every such lending iterator has it.
pub trait LendingIteratorDyn<M: ?Sized + HKT> {
    /// The well-formedness of a state; `dyn_next` keeps it.
    spec fn dyn_wf(&self) -> bool;

    /// Whether a call of `dyn_next` on this state may return `r`.
    spec fn dyn_yields<'a>(&self, r: Option<Feed<'a, M>>) -> bool where Self: 'a;

    /// Yields the next item, or `None` when exhausted.
    fn dyn_next(&mut self) -> (r: Option<Feed<'_, M>>)
        requires
            old(self).dyn_wf(),
        ensures
            (*final(self)).dyn_wf(),
            old(self).dyn_yields(r),
    ;
}

impl<I, M: ?Sized + HKT> LendingIteratorDyn<M> for I where
    I: LendingIterator + for<'n> LendingIteratorItem<'n, T = Feed<'n, M>>,
 {
    open spec fn dyn_wf(&self) -> bool {
        self.wf()
    }

    open spec fn dyn_yields<'a>(&self, r: Option<Feed<'a, M>>) -> bool where Self: 'a {
        exists|t: I| #[trigger] I::next_spec(self, &t, r)
    }

    /// Does exactly what `next` does.
    fn dyn_next(&mut self) -> (r: Option<Feed<'_, M>>)
        ensures
            I::next_spec(old(self), final(self), r),
    {
        self.next()
    }
}

/// The marker of the item type of `I`: at `'n` it stands for `Item<'n, I>`.
pub type HKTItem<I> = crate::HKT<dyn for<'n> WithLifetime<'n, T = Item<'n, I>>>;

impl<'n, 'u, M: ?Sized + HKT> LendingIteratorItem<'n> for Box<dyn LendingIteratorDyn<M> + 'u> {
    type T = Feed<'n, M>;
}

impl<'u, M: ?Sized + HKT> LendingIterator for Box<dyn LendingIteratorDyn<M> + 'u> {
    open spec fn wf(&self) -> bool {
        (**self).dyn_wf()
    }

    /// A call returns what the erased iterator may return from the state it
    /// is in.
    open spec fn next_spec<'a>(old: &Self, new: &Self, r: Option<Feed<'a, M>>) -> bool where
        Self: 'a,
     {
        (**old).dyn_yields(r)
    }

    open spec fn bound(&self) -> Option<nat> {
        None
    }

    fn next(&mut self) -> (r: Option<Feed<'_, M>>) {
        (**self).dyn_next()
    }
}

/// Conversion of a lending iterator into the pointer type `T` that erases
/// its type, for items of marker `M`.
pub trait DynCoerce<T, M: ?Sized>: Sized {
    /// Puts `self` behind the pointer.
    fn coerce(self) -> T;
}

impl<'u, I, M: ?Sized + HKT> DynCoerce<Box<dyn LendingIteratorDyn<M> + 'u>, M> for I where
    I: LendingIteratorDyn<M> + 'u,
 {
    fn coerce(self) -> (r: Box<dyn LendingIteratorDyn<M> + 'u>) {
        Box::new(self)
    }
}

/// A `LendingIteratorDyn` whose state may be sent to another thread.
pub trait SendLendingIteratorDyn<M: ?Sized + HKT>: LendingIteratorDyn<M> + Send {

}

impl<I: LendingIteratorDyn<M> + Send, M: ?Sized + HKT> SendLendingIteratorDyn<M> for I {

}

/// A `LendingIteratorDyn` whose state may be shared between threads.
pub trait SyncLendingIteratorDyn<M: ?Sized + HKT>: LendingIteratorDyn<M> + Sync {

}

impl<I: LendingIteratorDyn<M> + Sync, M: ?Sized + HKT> SyncLendingIteratorDyn<M> for I {

}

/// A `LendingIteratorDyn` whose state may be sent to and shared between
/// threads.
pub trait SendSyncLendingIteratorDyn<M: ?Sized + HKT>: LendingIteratorDyn<M> + Send + Sync {

}

impl<I: LendingIteratorDyn<M> + Send + Sync, M: ?Sized + HKT> SendSyncLendingIteratorDyn<M> for I {

}

impl<'u, I, M: ?Sized + HKT> DynCoerce<Box<dyn SendLendingIteratorDyn<M> + 'u>, M> for I where
    I: SendLendingIteratorDyn<M> + 'u,
 {
    fn coerce(self) -> (r: Box<dyn SendLendingIteratorDyn<M> + 'u>) {
        Box::new(self)
    }
}

impl<'u, I, M: ?Sized + HKT> DynCoerce<Box<dyn SyncLendingIteratorDyn<M> + 'u>, M> for I where
    I: SyncLendingIteratorDyn<M> + 'u,
 {
    fn coerce(self) -> (r: Box<dyn SyncLendingIteratorDyn<M> + 'u>) {
        Box::new(self)
    }
}

impl<'u, I, M: ?Sized + HKT> DynCoerce<Box<dyn SendSyncLendingIteratorDyn<M> + 'u>, M> for I where
    I: SendSyncLendingIteratorDyn<M> + 'u,
 {
    fn coerce(self) -> (r: Box<dyn SendSyncLendingIteratorDyn<M> + 'u>) {
        Box::new(self)
    }
}

impl<'n, 'u, M: ?Sized + HKT> LendingIteratorItem<'n> for Box<dyn SendLendingIteratorDyn<M> + 'u> {
    type T = Feed<'n, M>;
}

impl<'u, M: ?Sized + HKT> LendingIterator for Box<dyn SendLendingIteratorDyn<M> + 'u> {
    open spec fn wf(&self) -> bool {
        (**self).dyn_wf()
    }

    open spec fn next_spec<'a>(old: &Self, new: &Self, r: Option<Feed<'a, M>>) -> bool where
        Self: 'a,
     {
        (**old).dyn_yields(r)
    }

    open spec fn bound(&self) -> Option<nat> {
        None
    }

    fn next(&mut self) -> (r: Option<Feed<'_, M>>) {
        (**self).dyn_next()
    }
}

impl<'n, 'u, M: ?Sized + HKT> LendingIteratorItem<'n> for Box<dyn SyncLendingIteratorDyn<M> + 'u> {
    type T = Feed<'n, M>;
}

impl<'u, M: ?Sized + HKT> LendingIterator for Box<dyn SyncLendingIteratorDyn<M> + 'u> {
    open spec fn wf(&self) -> bool {
        (**self).dyn_wf()
    }

    open spec fn next_spec<'a>(old: &Self, new: &Self, r: Option<Feed<'a, M>>) -> bool where
        Self: 'a,
     {
        (**old).dyn_yields(r)
    }

    open spec fn bound(&self) -> Option<nat> {
        None
    }

    fn next(&mut self) -> (r: Option<Feed<'_, M>>) {
        (**self).dyn_next()
    }
}

impl<'n, 'u, M: ?Sized + HKT> LendingIteratorItem<'n> for Box<dyn SendSyncLendingIteratorDyn<M> + 'u> {
    type T = Feed<'n, M>;
}

impl<'u, M: ?Sized + HKT> LendingIterator for Box<dyn SendSyncLendingIteratorDyn<M> + 'u> {
    open spec fn wf(&self) -> bool {
        (**self).dyn_wf()
    }

    open spec fn next_spec<'a>(old: &Self, new: &Self, r: Option<Feed<'a, M>>) -> bool where
        Self: 'a,
     {
        (**old).dyn_yields(r)
    }

    open spec fn bound(&self) -> Option<nat> {
        None
    }

    fn next(&mut self) -> (r: Option<Feed<'_, M>>) {
        (**self).dyn_next()
    }
}

/// Puts `it` behind a pointer, erasing its type.
pub fn dyn_boxed<'u, M: ?Sized + HKT, I: 'u + LendingIteratorDyn<M>>(it: I) -> Box<
    dyn LendingIteratorDyn<M> + 'u,
> {
    Box::new(it)
}

} // verus!
