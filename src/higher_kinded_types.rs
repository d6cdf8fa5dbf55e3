//! Types that depend on a lifetime, passed around as ordinary type parameters.
//!
//! A *higher-kinded* type here is a marker type `M` such that, for every
//! lifetime `'lt`, `<M as WithLifetime<'lt>>::T` (written `Feed<'lt, M>`) is
//! one concrete type. The most general way to build one is
//! `crate::HKT<dyn for<'lt> WithLifetime<'lt, T = ...>>`; the aliases below
//! name the common shapes.
use vstd::prelude::*;

verus! {

/// Feeding a lifetime to a marker type: `<M as WithLifetime<'lt>>::T` is the
/// type that `M` stands for at `'lt`.
pub trait WithLifetime<'lt> {
    type T;
}

/// A marker type that can be fed any lifetime.
pub trait HKT where Self: for<'any> WithLifetime<'any> {

}

impl<M: ?Sized> HKT for M where M: for<'any> WithLifetime<'any> {

}

/// The type that the marker `M` stands for at the lifetime `'lt`.
pub type Feed<'lt, M> = <M as WithLifetime<'lt>>::T;

/// Wrapping a marker in `crate::HKT` keeps its meaning: feeding `'lt` to
/// `crate::HKT<M>` gives `Feed<'lt, M>`.
impl<'lt, M: ?Sized + HKT> WithLifetime<'lt> for crate::HKT<M> {
    type T = Feed<'lt, M>;
}

/// Wrapping a marker in `PhantomData` keeps its meaning too.
impl<'lt, M: ?Sized + HKT> WithLifetime<'lt> for core::marker::PhantomData<M> {
    type T = Feed<'lt, M>;
}

/// The canonical form of a marker: the marker built by `crate::HKT` from
/// what `M` stands for at each lifetime. Two markers that stand for the same
/// types have the same canonical form, and a canonical form is its own
/// canonical form.
pub type CanonicalHKT<M> = crate::HKT<dyn for<'n> WithLifetime<'n, T = Feed<'n, M>>>;

/// The marker for `&'lt T`.
pub type HKTRef<T> = crate::HKT<dyn for<'n> WithLifetime<'n, T = &'n T>>;

/// The marker for `&'lt mut T`.
pub type HKTRefMut<T> = crate::HKT<dyn for<'n> WithLifetime<'n, T = &'n mut T>>;

} // verus!
