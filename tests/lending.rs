use lending_iterator::{
    dyn_boxed, from_fn, from_iter, DynCoerce, FromFn, repeat, repeat_mut, windows_mut, CanonicalHKT, Feed, HKTRef,
    HKTRefMut, LendingIterator, LendingIteratorDyn, LendingIteratorExt, SendLendingIteratorDyn,
    SendSyncLendingIteratorDyn, SyncLendingIteratorDyn, WithLifetime, HKT,
};

type ArrayRefMut2 = HKT<dyn for<'n> WithLifetime<'n, T = &'n mut [u8; 2]>>;
type Owned<T> = HKT<dyn for<'n> WithLifetime<'n, T = T>>;

fn running_sums_through_adapters(array: &mut [u8; 7]) {
    let slice = &mut array[..];
    let mut start = 0;
    let mut window_iter = from_fn::<HKTRefMut<[u8]>, _, _>(slice, |it| Some(it))
        .filter_map::<HKTRefMut<[u8]>, _>(|[], slice| {
            Some({
                let to_yield = slice.get_mut(start..)?.get_mut(..2)?;
                start += 1;
                to_yield
            })
        })
        .map::<ArrayRefMut2, _>(|[], slice| slice.try_into().unwrap())
        .filter(|&&mut [fst, _]| fst != 0);
    while let Some(&mut [fst, ref mut snd]) = <_ as LendingIterator>::next(&mut window_iter) {
        *snd += fst;
    }
}

#[test]
fn lending_iterator_inlined_windows_mut() {
    let mut array = [0, 1, 2, 3, 4, 5, 6];
    let slice = &mut array[..];
    let mut start = 0;
    let mut window_iter = from_fn::<HKTRefMut<[u8]>, _, _>(slice, |it| Some(it))
        .lending::<HKTRefMut<[u8]>>()
        .and_then(|[], slice| {
            Some({
                let to_yield = slice.get_mut(start..)?.get_mut(..2)?;
                start += 1;
                to_yield
            })
        })
        .lending::<ArrayRefMut2>()
        .map(|[], slice| slice.try_into().unwrap())
        .filter(|&&mut [fst, _]| fst != 0);
    while let Some(&mut [fst, ref mut snd]) = window_iter.next() {
        *snd += fst;
    }
    assert_eq!([0, 1, 3, 6, 10, 15, 21], array);
}

#[test]
fn tests_inlined_windows_mut() {
    let mut array = [0, 1, 2, 3, 4, 5, 6];
    running_sums_through_adapters(&mut array);
    assert_eq!([0, 1, 3, 6, 10, 15, 21], array);
}

#[test]
fn windows_mut_running_sums() {
    let mut array = [0, 1, 2, 3, 4, 5, 6];
    let mut windows = windows_mut::<_, 2>(&mut array);
    while let Some(&mut [a, ref mut b]) = windows.next() {
        if a != 0 {
            *b = a + *b;
        }
    }
    assert_eq!(array, [0, 1, 3, 6, 10, 15, 21]);
}

#[test]
fn windows_mut_yields_each_overlapping_window() {
    let mut array = [1, 2, 3, 4];
    let mut windows = windows_mut::<_, 3>(&mut array);
    assert_eq!(windows.next().map(|w| *w), Some([1, 2, 3]));
    assert_eq!(windows.next().map(|w| *w), Some([2, 3, 4]));
    assert_eq!(windows.next().map(|w| *w), None);
    assert_eq!(windows.next().map(|w| *w), None);
}

#[test]
fn windows_mut_wider_than_slice_yields_nothing() {
    let mut array = [1, 2];
    let mut windows = windows_mut::<_, 3>(&mut array);
    assert!(windows.next().is_none());
}

#[test]
fn windows_mut_nth_skips_windows() {
    let mut array = [1, 2, 3, 4, 5];
    let mut windows = windows_mut::<_, 2>(&mut array);
    assert_eq!(windows.nth(2).map(|w| *w), Some([3, 4]));
    assert_eq!(windows.nth(0).map(|w| *w), Some([4, 5]));
    assert_eq!(windows.nth(5).map(|w| *w), None);
}

fn odd_calls_only(n: &mut u32) -> Option<u32> {
    *n += 1;
    if *n % 2 == 1 {
        Some(*n)
    } else {
        None
    }
}

/// A source that breaks the protocol: it yields on odd calls only.
fn alternating() -> FromFn<Owned<u32>, u32, fn(&mut u32) -> Option<u32>> {
    from_fn::<Owned<u32>, _, _>(0u32, odd_calls_only as fn(&mut u32) -> Option<u32>)
}

#[test]
fn unfused_source_resumes_after_none() {
    let mut it = alternating();
    assert_eq!(it.next(), Some(1));
    assert_eq!(it.next(), None);
    assert_eq!(it.next(), Some(3));
}

#[test]
fn fuse_stays_exhausted_after_first_none() {
    let mut it = alternating().fuse();
    assert_eq!(it.next(), Some(1));
    assert_eq!(it.next(), None);
    for _ in 0..5 {
        assert_eq!(it.next(), None);
    }
}

#[test]
fn take_zero_yields_nothing() {
    let mut it = from_iter(vec![1, 2, 3].into_iter()).take(0);
    assert_eq!(it.next(), None);
    assert_eq!(it.next(), None);
}

#[test]
fn take_more_than_source_yields_all_then_stops() {
    let mut it = from_iter(vec![1, 2, 3].into_iter()).take(5);
    assert_eq!(it.next(), Some(1));
    assert_eq!(it.next(), Some(2));
    assert_eq!(it.next(), Some(3));
    assert_eq!(it.next(), None);
}

#[test]
fn take_stops_a_longer_source() {
    let mut it = repeat_mut(7u8).take(2);
    assert_eq!(it.next().map(|x| *x), Some(7));
    assert_eq!(it.next().map(|x| *x), Some(7));
    assert!(it.next().is_none());
}

#[test]
fn skip_more_than_source_yields_nothing() {
    let mut it = from_iter(vec![1, 2, 3].into_iter()).skip(5);
    assert_eq!(it.next(), None);
}

#[test]
fn skip_zero_is_passthrough() {
    let mut it = from_iter(vec![1, 2].into_iter()).skip(0);
    assert_eq!(it.next(), Some(1));
    assert_eq!(it.next(), Some(2));
    assert_eq!(it.next(), None);
}

#[test]
fn skip_drops_the_first_items() {
    let mut it = from_iter(vec![1, 2, 3, 4].into_iter()).skip(2);
    assert_eq!(it.next(), Some(3));
    assert_eq!(it.next(), Some(4));
    assert_eq!(it.next(), None);
}

#[test]
fn repeat_mut_lends_the_same_state() {
    let mut it = repeat_mut(0u32);
    for _ in 0..4 {
        let state = it.next().unwrap();
        *state += 1;
    }
    assert_eq!(*it.next().unwrap(), 4);
}

#[test]
fn repeat_lends_the_same_state() {
    let mut it = repeat(String::from("Globby"));
    let mut seen = Vec::new();
    for _ in 0..3 {
        seen.push(it.next().unwrap().clone());
    }
    assert_eq!(seen, ["Globby", "Globby", "Globby"]);
}

#[test]
fn nth_returns_the_item_after_skipping() {
    let mut it = from_iter(vec![10, 20, 30, 40].into_iter());
    assert_eq!(it.nth(2), Some(30));
    assert_eq!(it.nth(0), Some(40));
    assert_eq!(it.nth(3), None);
}

#[test]
fn count_counts_the_items() {
    assert_eq!(from_iter(vec![1, 2, 3].into_iter()).count(), 3);
    assert_eq!(from_iter(Vec::<u8>::new().into_iter()).count(), 0);
}

#[test]
fn fold_sums_the_items() {
    let total = from_iter(vec![1, 2, 3, 4].into_iter()).fold(10, |acc, x| acc + x);
    assert_eq!(total, 20);
}

#[test]
fn try_fold_stops_at_the_first_error() {
    let mut it = from_iter(vec![1, 2, 3, 4].into_iter());
    let r: Result<u32, u32> = it.try_fold(0, |acc, x| if x == 3 { Err(acc) } else { Ok(acc + x) });
    assert_eq!(r, Err(3));
    assert_eq!(it.next(), Some(4));
    let mut it = from_iter(vec![1, 2].into_iter());
    let r: Result<u32, u32> = it.try_fold(0, |acc, x| Ok(acc + x));
    assert_eq!(r, Ok(3));
}

#[test]
fn all_and_any_short_circuit() {
    let mut it = from_iter(vec![2, 4, 5, 6].into_iter());
    assert!(!it.all(|x| x % 2 == 0));
    assert_eq!(it.next(), Some(6));
    let mut it = from_iter(vec![1, 3, 4, 5].into_iter());
    assert!(it.any(|x| x % 2 == 0));
    assert_eq!(it.next(), Some(5));
    assert!(from_iter(Vec::<u8>::new().into_iter()).all(|_| false));
    assert!(!from_iter(Vec::<u8>::new().into_iter()).any(|_| true));
}

#[test]
fn position_finds_the_first_match() {
    let mut it = from_iter(vec![5, 7, 8, 9].into_iter());
    assert_eq!(it.position(|x| x % 2 == 0), Some(2));
    assert_eq!(it.next(), Some(9));
    let mut it = from_iter(vec![1, 3].into_iter());
    assert_eq!(it.position(|x| x % 2 == 0), None);
}

#[test]
fn find_returns_the_first_accepted_item() {
    let mut it = from_iter(vec![1, 4, 6, 7].into_iter());
    assert_eq!(it.find(|x| *x > 3), Some(4));
    assert_eq!(it.find(|x| *x > 6), Some(7));
    assert_eq!(it.find(|_| true), None);
}

#[test]
fn for_each_and_try_for_each_visit_items() {
    let mut seen = Vec::new();
    from_iter(vec![1, 2, 3].into_iter()).for_each(|x| seen.push(x));
    assert_eq!(seen, [1, 2, 3]);
    let mut it = from_iter(vec![1, 2, 3].into_iter());
    let r = it.try_for_each(|x| if x < 2 { Ok(()) } else { Err(x) });
    assert_eq!(r, Err(2));
}

#[test]
fn map_and_filter_map_transform_items() {
    let mut it = from_iter(vec![1, 2, 3, 4].into_iter())
        .filter_map::<Owned<i32>, _>(|[], x| if x % 2 == 0 { Some(x * 10) } else { None })
        .map::<Owned<i32>, _>(|[], x| x + 1);
    // An item that the function drops ends that call with `None`.
    assert_eq!(it.next(), None);
    assert_eq!(it.next(), Some(21));
    assert_eq!(it.next(), None);
    assert_eq!(it.next(), Some(41));
    assert_eq!(it.next(), None);
}

#[test]
fn composed_adapters_match_a_single_manual_pass() {
    let data: Vec<u8> = vec![3, 0, 5, 0, 0, 7, 1];
    // Manual pass: pairs starting at each index that fits, as arrays, whose
    // first element is not zero.
    let mut manual = Vec::new();
    for start in 0..data.len() {
        if let Some(pair) = data.get(start..start + 2) {
            let pair: [u8; 2] = pair.try_into().unwrap();
            if pair[0] != 0 {
                manual.push(pair);
            }
        }
    }
    let mut copy = data.clone();
    let slice = &mut copy[..];
    let mut start = 0;
    let mut it = from_fn::<HKTRefMut<[u8]>, _, _>(slice, |it| Some(it))
        .filter_map::<HKTRefMut<[u8]>, _>(|[], slice| {
            Some({
                let to_yield = slice.get_mut(start..)?.get_mut(..2)?;
                start += 1;
                to_yield
            })
        })
        .map::<ArrayRefMut2, _>(|[], slice| slice.try_into().unwrap())
        .filter(|&&mut [fst, _]| fst != 0);
    let mut adapted = Vec::new();
    while let Some(pair) = it.next() {
        adapted.push(*pair);
    }
    assert_eq!(adapted, manual);
}

#[test]
fn boxed_iterator_yields_what_the_original_yields() {
    let direct: Vec<u32> = {
        let mut it = from_iter(vec![4, 8, 15, 16].into_iter()).skip(1);
        let mut out = Vec::new();
        while let Some(x) = it.next() {
            out.push(x);
        }
        out
    };
    let mut boxed: Box<dyn LendingIteratorDyn<Owned<u32>>> =
        dyn_boxed::<Owned<u32>, _>(from_iter(vec![4u32, 8, 15, 16].into_iter()).skip(1));
    let mut through_box = Vec::new();
    while let Some(x) = boxed.dyn_next() {
        through_box.push(x);
    }
    assert_eq!(through_box, direct);
    let mut boxed: Box<dyn LendingIteratorDyn<Owned<u32>>> =
        dyn_boxed::<Owned<u32>, _>(from_iter(vec![4u32, 8, 15, 16].into_iter()).skip(1));
    let mut as_lending = Vec::new();
    while let Some(x) = LendingIterator::next(&mut boxed) {
        as_lending.push(x);
    }
    assert_eq!(as_lending, direct);
}

#[test]
fn boxed_iterator_lends_borrowed_items() {
    let mut array = [1, 2, 3];
    let mut boxed: Box<dyn LendingIteratorDyn<HKTRefMut<[i32; 2]>> + '_> =
        dyn_boxed::<HKTRefMut<[i32; 2]>, _>(windows_mut::<_, 2>(&mut array));
    while let Some(w) = boxed.dyn_next() {
        w[1] += w[0];
    }
    drop(boxed);
    assert_eq!(array, [1, 3, 6]);
}

/// Type-checks only if canonicalizing twice gives the canonical form, for
/// every marker `M`.
fn canonical_twice_is_canonical<M: ?Sized + for<'n> WithLifetime<'n>>() -> usize {
    let twice = std::marker::PhantomData::<CanonicalHKT<CanonicalHKT<M>>>;
    let once: std::marker::PhantomData<CanonicalHKT<M>> = twice;
    std::mem::size_of_val(&once)
}

#[test]
fn canonicalization_is_idempotent() {
    assert_eq!(canonical_twice_is_canonical::<HKTRef<str>>(), 0);
    assert_eq!(
        canonical_twice_is_canonical::<HKT<dyn for<'n> WithLifetime<'n, T = Vec<Option<&'n u8>>>>>(),
        0,
    );
    let twice = std::marker::PhantomData::<CanonicalHKT<CanonicalHKT<HKTRefMut<[u8]>>>>;
    let once: std::marker::PhantomData<CanonicalHKT<HKTRefMut<[u8]>>> = twice;
    assert_eq!(std::mem::size_of_val(&once), 0);
}

fn feed_twice<M: ?Sized + for<'n> WithLifetime<'n>>(x: Feed<'static, M>) -> Feed<'static, M> {
    let again: Feed<'static, M> = x;
    again
}

#[test]
fn feeding_a_lifetime_is_deterministic() {
    type Nested = HKT<dyn for<'n> WithLifetime<'n, T = Vec<Option<(&'n str, u8)>>>>;
    let value: Feed<'static, Nested> = vec![Some(("a", 1)), None];
    let again: Feed<'static, Nested> = feed_twice::<Nested>(value.clone());
    assert_eq!(value, again);
    let s = String::from("lent");
    let r: Feed<'_, HKTRef<str>> = &s;
    assert_eq!(r, "lent");
}

#[test]
fn take_nth_within_and_past_the_budget() {
    let mut it = from_iter(vec![1, 2, 3, 4, 5, 6].into_iter()).take(4);
    assert_eq!(it.nth(1), Some(2));
    assert_eq!(it.nth(5), None);
    assert_eq!(it.next(), None);
    let mut inner = from_iter(vec![1, 2, 3, 4, 5, 6].into_iter());
    {
        let mut bounded = inner.by_ref().take(3);
        assert_eq!(bounded.nth(7), None);
    }
    // The budget of three items was spent on the inner iterator.
    assert_eq!(inner.next(), Some(4));
}

#[test]
fn by_ref_leaves_the_rest_to_the_owner() {
    let mut it = from_iter(vec![1, 2, 3, 4].into_iter());
    assert_eq!(it.by_ref().skip(1).next(), Some(2));
    assert_eq!(it.next(), Some(3));
}

#[test]
fn into_iter_and_map_into_iter_give_plain_values() {
    let mut plain = from_iter(vec![1, 2].into_iter()).into_iter();
    assert_eq!(plain.next(), Some(1));
    assert_eq!(plain.next(), Some(2));
    assert_eq!(plain.next(), None);
    let mut array = [1, 2, 3];
    let mut sums = windows_mut::<_, 2>(&mut array).map_into_iter(|w: &mut [i32; 2]| w[0] + w[1]);
    assert_eq!(sums.next(), Some(3));
    assert_eq!(sums.next(), Some(5));
    assert_eq!(sums.next(), None);
    let mut evens =
        from_iter(vec![2, 3].into_iter()).filter_map_into_iter(|x: i32| if x % 2 == 0 { Some(x) } else { None });
    assert_eq!(evens.next(), Some(2));
    assert_eq!(evens.next(), None);
}

#[test]
fn lending_builder_maps_without_turbofish_on_map() {
    let mut array = [5u8, 6, 7];
    let mut firsts = windows_mut::<_, 2>(&mut array)
        .lending::<HKTRefMut<u8>>()
        .map(|[], w: &mut [u8; 2]| &mut w[0]);
    while let Some(first) = firsts.next() {
        *first += 10;
    }
    assert_eq!(array, [15, 16, 7]);
    let mut small = from_iter(vec![1u8, 50, 2].into_iter())
        .lending::<Owned<u8>>()
        .and_then(|[], x: u8| if x < 10 { Some(x) } else { None });
    assert_eq!(small.next(), Some(1));
    assert_eq!(small.next(), None);
    assert_eq!(small.next(), Some(2));
}

#[test]
fn coerce_boxes_an_iterator() {
    let mut boxed: Box<dyn LendingIteratorDyn<Owned<u32>>> =
        DynCoerce::<Box<dyn LendingIteratorDyn<Owned<u32>>>, Owned<u32>>::coerce(
            from_iter(vec![1u32, 2].into_iter()),
        );
    assert_eq!(boxed.dyn_next(), Some(1));
    assert_eq!(boxed.dyn_next(), Some(2));
    assert_eq!(boxed.dyn_next(), None);
}

#[test]
fn boxed_concrete_iterator_does_what_it_does() {
    let mut boxed = Box::new(from_iter(vec![7u8, 9].into_iter()));
    assert_eq!(LendingIterator::next(&mut boxed), Some(7));
    assert_eq!(LendingIterator::next(&mut boxed), Some(9));
    assert_eq!(LendingIterator::next(&mut boxed), None);
}

#[test]
fn windows_mut_nth_past_the_end_exhausts_for_good() {
    let mut array = [1u8, 2, 3];
    let mut windows = windows_mut::<_, 2>(&mut array);
    assert!(windows.nth(5).is_none());
    assert!(windows.next().is_none());
    assert!(windows.next().is_none());
    let mut array = [1u8, 2, 3];
    let mut skipped = windows_mut::<_, 2>(&mut array).skip(5);
    assert!(skipped.next().is_none());
    assert!(skipped.next().is_none());
}

#[test]
fn send_boxed_iterator_yields_the_items() {
    let mut boxed: Box<dyn SendLendingIteratorDyn<Owned<u32>>> =
        DynCoerce::<Box<dyn SendLendingIteratorDyn<Owned<u32>>>, Owned<u32>>::coerce(
            from_iter(vec![3u32, 4].into_iter()),
        );
    assert_eq!(LendingIterator::next(&mut boxed), Some(3));
    assert_eq!(boxed.dyn_next(), Some(4));
    assert_eq!(boxed.dyn_next(), None);
    let mut shared: Box<dyn SendSyncLendingIteratorDyn<Owned<u32>>> =
        DynCoerce::<Box<dyn SendSyncLendingIteratorDyn<Owned<u32>>>, Owned<u32>>::coerce(
            from_iter(vec![5u32].into_iter()),
        );
    assert_eq!(LendingIterator::next(&mut shared), Some(5));
    let mut synced: Box<dyn SyncLendingIteratorDyn<Owned<u32>>> =
        DynCoerce::<Box<dyn SyncLendingIteratorDyn<Owned<u32>>>, Owned<u32>>::coerce(
            from_iter(vec![6u32].into_iter()),
        );
    assert_eq!(synced.dyn_next(), Some(6));
}
