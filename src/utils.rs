//! Traits that name the result type of a one-argument function, so that a
//! bound can leave it open.
use vstd::prelude::*;

verus! {

/// A function called once on an `Arg`, with its result type named.
pub trait FnOnce1<Arg> where Self: core::ops::FnOnce(Arg) -> Self::Ret {
    type Ret;
}

impl<F: ?Sized, Arg, Ret> FnOnce1<Arg> for F where F: core::ops::FnOnce(Arg) -> Ret {
    type Ret = Ret;
}

/// A function called any number of times on an `Arg`, with its result type
/// named by `FnOnce1`.
pub trait FnMut1<Arg> where Self: FnOnce1<Arg>, Self: core::ops::FnMut(Arg) -> <Self as FnOnce1<Arg>>::Ret {

}

impl<F: ?Sized, Arg, Ret> FnMut1<Arg> for F where F: core::ops::FnMut(Arg) -> Ret {

}

/// A function that returns an optional value, with the type of that value
/// named.
pub trait FnMutOption<Arg> where Self: core::ops::FnMut(Arg) -> Option<Self::Ret> {
    type Ret;
}

impl<F: ?Sized, Arg, Ret> FnMutOption<Arg> for F where F: core::ops::FnMut(Arg) -> Option<Ret> {
    type Ret = Ret;
}

/// A function called any number of times on an `Arg`, with its result type
/// named.
pub trait FnMut<Arg> where Self: core::ops::FnMut(Arg) -> Self::Ret {
    type Ret;
}

impl<F: ?Sized, Arg, Ret> FnMut<Arg> for F where F: core::ops::FnMut(Arg) -> Ret {
    type Ret = Ret;
}

} // verus!
