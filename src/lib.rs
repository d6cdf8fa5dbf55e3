//! Lending iterators: iterators whose items may borrow from the iterator
//! itself, for as long as the call to `next` that produced them.
use vstd::prelude::*;

pub mod higher_kinded_types;
pub mod lending_iterator;
pub mod utils;

pub use higher_kinded_types::{CanonicalHKT, Feed, HKTRef, HKTRefMut, WithLifetime};
pub use lending_iterator::adapters::{
    Filter, FilterMap, FilterMapIntoIter, Fuse, IntoIter, Lending, MapIntoIter, Mapped, Skip, Take,
};
pub use lending_iterator::dyn_facade::{
    dyn_boxed, DynCoerce, HKTItem, LendingIteratorDyn, SendLendingIteratorDyn,
    SendSyncLendingIteratorDyn, SyncLendingIteratorDyn,
};
pub use lending_iterator::{
    from_fn, from_iter, repeat, repeat_mut, windows_mut, FromFn, FromIter, Item, LendingIterator,
    LendingIteratorExt, LendingIteratorItem, Repeat, RepeatMut, WindowsMut,
};

verus! {

/// The shorthand marker of higher-kinded types: `HKT<M>` stands, at each
/// lifetime, for what `M` stands for (see `higher_kinded_types`). It is only
/// ever used as a type; its values carry nothing.
pub enum HKT<M: ?Sized> {
    HKT,
    Phantom(core::marker::PhantomData<M>),
}

} // verus!
