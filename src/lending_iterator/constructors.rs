//! Ways to start a lending iterator.
use vstd::prelude::*;

use crate::higher_kinded_types::{Feed, HKT};
use crate::lending_iterator::{Item, LendingIterator, LendingIteratorItem};
use vstd::std_specs::iter::IteratorSpec;

verus! {

/// Relies on `<[T]>::first_chunk_mut`: the first `N` items of a slice, as an
/// array, or `None` where the slice holds fewer than `N`.
#[verifier::external_body]
fn first_chunk_mut<T, const N: usize>(s: &mut [T]) -> (r: Option<&mut [T; N]>)
    ensures
        r is None <==> old(s)@.len() < N,
        r is None ==> final(s)@ == old(s)@,
        r matches Some(a) ==> {
            &&& a@ == old(s)@.subrange(0, N as int)
            &&& final(s)@ == final(a)@ + old(s)@.subrange(N as int, old(s)@.len() as int)
        },
{
    s.first_chunk_mut::<N>()
}

/// The sliding windows of width `WINDOW_SIZE` over a mutable sequence, one
/// step apart. Windows overlap, so each is lent exclusively: it must be
/// released before the next one is asked for.
pub struct WindowsMut<Slice, const WINDOW_SIZE: usize> {
    slice: Slice,
    start: usize,
}

impl<'lt, T, const WINDOW_SIZE: usize> WindowsMut<&'lt mut [T], WINDOW_SIZE> {
    /// The sequence the windows slide over, as it stands now.
    pub closed spec fn contents(&self) -> Seq<T> {
        self.slice@
    }

    /// The borrow of the sequence that the iterator holds: once the iterator
    /// is gone, the sequence holds what this borrow ends with.
    pub closed spec fn borrowed(&self) -> &'lt mut [T] {
        self.slice
    }

    /// Where the next window starts.
    pub closed spec fn start(&self) -> nat {
        self.start as nat
    }

    /// Where the window `n` steps ahead starts, if the sequence holds it
    /// (and the position after it can be counted).
    pub open spec fn window_at(&self, n: nat) -> Option<nat> {
        if self.start() + n + WINDOW_SIZE <= self.contents().len() && self.start() + n
            < usize::MAX {
            Some(self.start() + n)
        } else {
            None
        }
    }

    /// Skips `n` windows and lends the next one. Where the sequence is too
    /// short for it, returns `None` and leaves the iterator exhausted for
    /// good: no window follows. What is written through the window is
    /// written to the sequence.
    pub fn nth(&mut self, n: usize) -> (r: Option<&mut [T; WINDOW_SIZE]>)
        ensures
            // the iterator keeps the same borrow of the sequence
            final(final(self).borrowed())@ == final(old(self).borrowed())@,
            match old(self).window_at(n as nat) {
                Some(s) => r matches Some(w) && w@ == old(self).contents().subrange(
                    s as int,
                    s + WINDOW_SIZE,
                ) && final(self).start() == s + 1 && final(self).contents()
                    == old(self).contents().subrange(0, s as int) + final(w)@ + old(
                    self,
                ).contents().subrange(s + WINDOW_SIZE, old(self).contents().len() as int),
                None => r is None && final(self).contents() == old(self).contents()
                    && final(self).start() == usize::MAX && final(self).window_at(0) is None,
            },
    {
        let len = self.slice.len();
        let new_start = match self.start.checked_add(n) {
            Some(s) => s,
            None => {
                self.start = usize::MAX;
                return None;
            },
        };
        if new_start > len || new_start == usize::MAX {
            self.start = usize::MAX;
            return None;
        }
        let ghost c = self.slice@;
        let (front, rest) = self.slice.split_at_mut(new_start);
        let ghost r = rest@;
        assert(r =~= c.subrange(new_start as int, len as int));
        proof {
            if new_start + WINDOW_SIZE <= len {
                assert(r.subrange(0, WINDOW_SIZE as int) =~= c.subrange(
                    new_start as int,
                    new_start + WINDOW_SIZE,
                ));
                assert(r.subrange(WINDOW_SIZE as int, r.len() as int) =~= c.subrange(
                    new_start + WINDOW_SIZE,
                    len as int,
                ));
            }
        }
        let window = first_chunk_mut::<T, WINDOW_SIZE>(rest);
        if window.is_some() {
            self.start = new_start + 1;
        } else {
            self.start = usize::MAX;
        }
        window
    }
}

/// Lends the sliding windows of width `WINDOW_SIZE` over `slice`, starting
/// with the one at its front. What `slice` holds once the iterator is gone
/// is what the iterator's borrow ends with.
pub fn windows_mut<T, const WINDOW_SIZE: usize>(slice: &mut [T]) -> (r: WindowsMut<
    &mut [T],
    WINDOW_SIZE,
>)
    ensures
        r.contents() == old(slice)@,
        r.start() == 0,
        final(slice)@ == final(r.borrowed())@,
{
    WindowsMut { slice, start: 0 }
}

impl<'next, 'lt, T, const WINDOW_SIZE: usize> LendingIteratorItem<'next> for WindowsMut<
    &'lt mut [T],
    WINDOW_SIZE,
> {
    type T = &'next mut [T; WINDOW_SIZE];
}

impl<'lt, T, const WINDOW_SIZE: usize> LendingIterator for WindowsMut<&'lt mut [T], WINDOW_SIZE> {
    open spec fn wf(&self) -> bool {
        true
    }

    open spec fn next_spec<'a>(old: &Self, new: &Self, r: Option<&'a mut [T; WINDOW_SIZE]>) -> bool where
        Self: 'a,
     {
        match old.window_at(0) {
            Some(s) => r matches Some(w) && w@ == old.contents().subrange(
                s as int,
                s + WINDOW_SIZE,
            ) && new.start() == s + 1,
            None => r is None && new.contents() == old.contents() && new.start() == usize::MAX
                && new.window_at(0) is None,
        }
    }

    open spec fn bound(&self) -> Option<nat> {
        if self.start() <= self.contents().len() + 1 {
            Some((self.contents().len() + 1 - self.start()) as nat)
        } else {
            Some(0)
        }
    }

    fn next(&mut self) -> (r: Option<&mut [T; WINDOW_SIZE]>)
        ensures
            final(final(self).borrowed())@ == final(old(self).borrowed())@,
            r matches Some(w) ==> final(self).contents() == old(self).contents().subrange(
                0,
                old(self).start() as int,
            ) + final(w)@ + old(self).contents().subrange(
                old(self).start() + WINDOW_SIZE,
                old(self).contents().len() as int,
            ),
    {
        self.nth(0)
    }
}


/// An endless lending iterator that lends, at each call, exclusive access to
/// the one state it owns.
pub struct RepeatMut<State>(State);

impl<State> RepeatMut<State> {
    /// The state that the next call lends.
    pub closed spec fn state(&self) -> State {
        self.0
    }
}

/// Lends `&mut state` again and again, without end.
pub fn repeat_mut<State>(state: State) -> (r: RepeatMut<State>)
    ensures
        r.state() == state,
{
    RepeatMut(state)
}

impl<'next, State> LendingIteratorItem<'next> for RepeatMut<State> {
    type T = &'next mut State;
}

impl<State> LendingIterator for RepeatMut<State> {
    open spec fn wf(&self) -> bool {
        true
    }

    open spec fn next_spec<'a>(old: &Self, new: &Self, r: Option<&'a mut State>) -> bool where
        Self: 'a,
     {
        r matches Some(x) && *x == old.state()
    }

    open spec fn bound(&self) -> Option<nat> {
        None
    }

    /// Lends the state; what is written through it stays in the state.
    fn next(&mut self) -> (r: Option<&mut State>)
        ensures
            r matches Some(x) && final(self).state() == *final(x),
    {
        Some(&mut self.0)
    }
}

/// The same endless lending iterator as `RepeatMut`, under the name of
/// `repeat`.
pub struct Repeat<State>(State);

impl<State> Repeat<State> {
    /// The state that the next call lends.
    pub closed spec fn state(&self) -> State {
        self.0
    }
}

/// Lends `&mut state` again and again, without end.
pub fn repeat<State>(state: State) -> (r: Repeat<State>)
    ensures
        r.state() == state,
{
    Repeat(state)
}

impl<'next, State> LendingIteratorItem<'next> for Repeat<State> {
    type T = &'next mut State;
}

impl<State> LendingIterator for Repeat<State> {
    open spec fn wf(&self) -> bool {
        true
    }

    open spec fn next_spec<'a>(old: &Self, new: &Self, r: Option<&'a mut State>) -> bool where
        Self: 'a,
     {
        r matches Some(x) && *x == old.state()
    }

    open spec fn bound(&self) -> Option<nat> {
        None
    }

    /// Lends the state; what is written through it stays in the state.
    fn next(&mut self) -> (r: Option<&mut State>)
        ensures
            r matches Some(x) && final(self).state() == *final(x),
    {
        Some(&mut self.0)
    }
}

/// A plain iterator seen as a lending one: its items borrow nothing.
pub struct FromIter<I: ?Sized + Iterator>(pub I);

/// Turns a plain iterator into a lending iterator over the same items.
pub fn from_iter<I: Iterator>(it: I) -> (r: FromIter<I>)
    ensures
        r.0 == it,
{
    FromIter(it)
}

impl<'next, I: ?Sized + Iterator> LendingIteratorItem<'next> for FromIter<I> {
    type T = I::Item;
}

impl<I: Iterator> LendingIterator for FromIter<I> {
    open spec fn wf(&self) -> bool {
        true
    }

    open spec fn next_spec<'a>(old: &Self, new: &Self, r: Option<I::Item>) -> bool where
        Self: 'a,
     {
        true
    }

    open spec fn bound(&self) -> Option<nat> {
        None
    }

    /// Yields the next item of the plain iterator.
    fn next(&mut self) -> (r: Option<I::Item>)
        ensures
            old(self).0.obeys_prophetic_iter_laws() ==> if old(self).0.remaining().len() > 0 {
                &&& r == Some(old(self).0.remaining()[0])
                &&& final(self).0.remaining() == old(self).0.remaining().drop_first()
            } else {
                r is None
            },
    {
        self.0.next()
    }
}

/// A lending iterator made of a state and a function that, given exclusive
/// access to the state, produces the next item.
pub struct FromFn<M: ?Sized + HKT, State, Next> where
    Next: FnMut(&mut State) -> Option<Feed<'_, M>>,
 {
    /// The state, which items may borrow from.
    pub state: State,
    /// What each call of `next` runs on the state.
    pub next: Next,
    /// The marker of the item type.
    pub _phantom: core::marker::PhantomData<crate::HKT<M>>,
}

/// A lending iterator that calls `next` on `state` for each item. `M` is
/// the marker of the item type.
pub fn from_fn<M: ?Sized + HKT, State, Next>(state: State, next: Next) -> (r: FromFn<
    M,
    State,
    Next,
>) where Next: FnMut(&mut State) -> Option<Feed<'_, M>>
    ensures
        r.state == state,
        r.next == next,
{
    FromFn { state, next, _phantom: core::marker::PhantomData }
}

impl<'next, M: ?Sized + HKT, State, Next> LendingIteratorItem<'next> for FromFn<
    M,
    State,
    Next,
> where Next: FnMut(&mut State) -> Option<Feed<'_, M>> {
    type T = Feed<'next, M>;
}

impl<M: ?Sized + HKT, State, Next> LendingIterator for FromFn<M, State, Next> where
    Next: FnMut(&mut State) -> Option<Feed<'_, M>>,
 {
    open spec fn wf(&self) -> bool {
        forall|s: &mut State| call_requires(self.next, (s,))
    }

    /// One call runs the function on the state: `r` is one of its results.
    open spec fn next_spec<'a>(old: &Self, new: &Self, r: Option<Feed<'a, M>>) -> bool where
        Self: 'a,
     {
        &&& new.next == old.next
        &&& exists|s: &mut State| *s == old.state && #[trigger] call_ensures(old.next, (s,), r)
    }

    open spec fn bound(&self) -> Option<nat> {
        None
    }

    /// Runs the function on the state, which it may change.
    fn next(&mut self) -> (r: Option<Feed<'_, M>>)
        ensures
            exists|s: &mut State|
                {
                    &&& *s == old(self).state
                    &&& *final(s) == final(self).state
                    &&& #[trigger] call_ensures(old(self).next, (s,), r)
                },
    {
        (self.next)(&mut self.state)
    }
}

/// Two windows lent one after the other start one step apart: the first
/// covers `[s, s + WINDOW_SIZE)` and the second `[s + 1, s + 1 +
/// WINDOW_SIZE)` of the sequence as it stands when each is lent, so that
/// they share `WINDOW_SIZE - 1` positions. Each window is lent exclusively,
/// so the first must be released before the second is asked for.
pub proof fn lemma_windows_overlap<'lt, 'a, T, const WINDOW_SIZE: usize>(
    w0: WindowsMut<&'lt mut [T], WINDOW_SIZE>,
    w1: WindowsMut<&'lt mut [T], WINDOW_SIZE>,
    w2: WindowsMut<&'lt mut [T], WINDOW_SIZE>,
    r1: Option<&'a mut [T; WINDOW_SIZE]>,
    r2: Option<&'a mut [T; WINDOW_SIZE]>,
)
    requires
        WindowsMut::<&'lt mut [T], WINDOW_SIZE>::next_spec(&w0, &w1, r1),
        WindowsMut::<&'lt mut [T], WINDOW_SIZE>::next_spec(&w1, &w2, r2),
        r1 is Some,
        r2 is Some,
    ensures
        w1.start() == w0.start() + 1,
        r1->0@ == w0.contents().subrange(w0.start() as int, w0.start() + WINDOW_SIZE),
        r2->0@ == w1.contents().subrange(w0.start() + 1 as int, w0.start() + 1 + WINDOW_SIZE as int),
        (w0.start() + WINDOW_SIZE) - (w0.start() + 1) == WINDOW_SIZE - 1,
{
}

/// Once the windows have run out, they stay out: a call that returns
/// `None` leaves no window to follow, so the next call returns `None` too,
/// and the sequence is left as it was.
pub proof fn lemma_windows_exhaustion_is_permanent<'lt, 'a, T, const WINDOW_SIZE: usize>(
    w0: WindowsMut<&'lt mut [T], WINDOW_SIZE>,
    w1: WindowsMut<&'lt mut [T], WINDOW_SIZE>,
    w2: WindowsMut<&'lt mut [T], WINDOW_SIZE>,
    r2: Option<&'a mut [T; WINDOW_SIZE]>,
)
    requires
        WindowsMut::<&'lt mut [T], WINDOW_SIZE>::next_spec(&w0, &w1, None),
        WindowsMut::<&'lt mut [T], WINDOW_SIZE>::next_spec(&w1, &w2, r2),
    ensures
        r2 is None,
        w2.window_at(0) is None,
        w2.contents() == w0.contents(),
{
}

} // verus!
