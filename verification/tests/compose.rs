use lending_iter::{
    into_vec, Chain, Enumerate, Filter, FilterMap, LendingIterator, LendingIteratorExt, Mapped,
    SkipWhile, ToLendingIterator, Zip,
};

#[test]
fn chain_lends_the_first_and_then_the_second() {
    let chained = vec![1, 2].into_lending().chain(vec![3, 4, 5].into_lending());
    assert_eq!(into_vec(chained), vec![1, 2, 3, 4, 5]);
    let chained = Chain::new(Vec::<i32>::new().into_lending(), vec![3].into_lending());
    assert_eq!(into_vec(chained), vec![3]);
    let chained = vec![1, 2].into_lending().chain(vec![3].into_lending());
    assert_eq!(chained.size_hint(), (3, Some(3)));
}

#[test]
fn zip_pairs_up_to_the_shorter() {
    let zipped = vec![1, 2, 3].into_lending().zip(vec!['a', 'b'].into_lending());
    assert_eq!(into_pairs(zipped), vec![(1, 'a'), (2, 'b')]);
    let zipped = Zip::new(vec![1].into_lending(), vec!['a', 'b'].into_lending());
    assert_eq!(zipped.size_hint(), (1, Some(1)));
    assert_eq!(into_pairs(zipped), vec![(1, 'a')]);
}

fn into_pairs<I>(mut zipped: I) -> Vec<(i32, char)>
where
    for<'a> I: LendingIterator<Item<'a> = (i32, char)>,
{
    let mut pairs = Vec::new();
    while let Some(pair) = zipped.next() {
        pairs.push(pair);
    }
    pairs
}

#[test]
fn enumerate_numbers_from_zero() {
    let mut numbered = vec!['a', 'b', 'c'].into_lending().enumerate();
    assert_eq!(numbered.next(), Some((0, 'a')));
    assert_eq!(numbered.next(), Some((1, 'b')));
    assert_eq!(numbered.size_hint(), (1, Some(1)));
    assert_eq!(numbered.next(), Some((2, 'c')));
    assert_eq!(numbered.next(), None);
    let mut empty = Enumerate::new(Vec::<char>::new().into_lending());
    assert_eq!(empty.next(), None);
}

#[test]
fn map_lends_what_the_function_makes_of_each_item() {
    let doubled = vec![1, 2, 3].into_lending().map(|x| x * 2);
    assert_eq!(into_vec(doubled), vec![2, 4, 6]);
    let lengths = Mapped::new(vec!["a", "bcd"].into_lending(), |s: &str| s.len());
    assert_eq!(lengths.size_hint(), (2, Some(2)));
    assert_eq!(into_vec(lengths), vec![1, 3]);
}

#[test]
fn filter_lends_only_what_passes() {
    let even = vec![1, 2, 3, 4, 6, 7].into_lending().filter(|x: &i32| *x % 2 == 0);
    assert_eq!(into_vec(even), vec![2, 4, 6]);
    let mut none = Filter::new(vec![1, 3].into_lending(), |x: &i32| *x % 2 == 0);
    assert_eq!(none.size_hint(), (0, Some(2)));
    assert_eq!(none.next(), None);
    assert_eq!(none.next(), None);
}

#[test]
fn filter_map_filters_and_maps_at_once() {
    let halves = vec![1, 2, 3, 4]
        .into_lending()
        .filter_map(|x| if x % 2 == 0 { Some(x / 2) } else { None });
    assert_eq!(into_vec(halves), vec![1, 2]);
    let mut parsed = FilterMap::new(vec!["1", "x", "3"].into_lending(), |s: &str| {
        s.parse::<i32>().ok()
    });
    assert_eq!(parsed.next(), Some(1));
    assert_eq!(parsed.next(), Some(3));
    assert_eq!(parsed.next(), None);
}

#[test]
fn adapters_compose() {
    let composed = (0..20)
        .into_lending()
        .skip(2)
        .step_by(3)
        .take(4)
        .enumerate()
        .map(|(i, x)| i * 100 + x);
    assert_eq!(into_vec(composed), vec![2, 105, 208, 311]);
}

#[test]
fn size_hints_are_made_of_the_inner_hints() {
    let bounded = || vec![1, 2, 3].into_lending();
    let unbounded = || vec![1, 2, 3].into_lending().take(2);
    assert_eq!(unbounded().size_hint(), (0, None));

    assert_eq!(bounded().chain(bounded()).size_hint(), (6, Some(6)));
    assert_eq!(bounded().chain(unbounded()).size_hint(), (3, None));
    assert_eq!(unbounded().chain(unbounded()).size_hint(), (0, None));

    assert_eq!(bounded().zip(vec![1].into_lending()).size_hint(), (1, Some(1)));
    assert_eq!(bounded().zip(unbounded()).size_hint(), (0, Some(3)));
    assert_eq!(unbounded().zip(unbounded()).size_hint(), (0, None));

    assert_eq!(bounded().enumerate().size_hint(), (3, Some(3)));
    assert_eq!(unbounded().enumerate().size_hint(), (0, None));
    assert_eq!(bounded().map(|x| x + 1).size_hint(), (3, Some(3)));
    assert_eq!(unbounded().map(|x| x + 1).size_hint(), (0, None));

    assert_eq!(bounded().filter(|x: &i32| *x > 1).size_hint(), (0, Some(3)));
    assert_eq!(Filter::new(unbounded(), |x: &i32| *x > 1).size_hint(), (0, None));
    assert_eq!(SkipWhile::new(bounded(), |x: &i32| *x > 1).size_hint(), (0, Some(3)));
    assert_eq!(SkipWhile::new(unbounded(), |x: &i32| *x > 1).size_hint(), (0, None));
}

#[test]
fn chained_hints_stop_at_what_a_usize_holds() {
    let long = || (0..usize::MAX).into_lending();
    assert_eq!(long().size_hint(), (usize::MAX, Some(usize::MAX)));
    assert_eq!(long().chain(long()).size_hint(), (usize::MAX, None));
    assert_eq!(
        long().chain((0..0).into_lending()).size_hint(),
        (usize::MAX, Some(usize::MAX))
    );
}
