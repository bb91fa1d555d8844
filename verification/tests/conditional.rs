use lending_iter::{
    into_vec, LendingIterator, LendingIteratorExt, SkipWhile, TakeWhile, ToLendingIterator,
};

#[test]
fn skip_while_passes_everything_after_the_first_failure() {
    let mut skipping = SkipWhile::new(vec![0, 1, 5, 1, 0].into_lending(), |x: &i32| *x < 2);
    assert_eq!(skipping.next(), Some(5));
    assert_eq!(skipping.next(), Some(1));
    assert_eq!(skipping.next(), Some(0));
    assert_eq!(skipping.next(), None);
}

#[test]
fn skip_while_may_skip_everything_or_nothing() {
    let all = SkipWhile::new(vec![0, 1, 0].into_lending(), |x: &i32| *x < 2);
    assert_eq!(into_vec(all), Vec::<i32>::new());
    let none = SkipWhile::new(vec![7, 0, 1].into_lending(), |x: &i32| *x < 2);
    assert_eq!(into_vec(none), vec![7, 0, 1]);
}

#[test]
fn skip_while_hints_at_most_the_inner_length() {
    let skipping = SkipWhile::new(vec![0, 1, 5].into_lending(), |x: &i32| *x < 2);
    assert_eq!(skipping.size_hint(), (0, Some(3)));
}

#[test]
fn take_while_ends_for_good_at_the_first_failure() {
    let mut taking = vec![0, 1, 5, 1, 0].into_lending().take_while(|x: &i32| *x < 2);
    assert_eq!(taking.next(), Some(0));
    assert_eq!(taking.next(), Some(1));
    assert_eq!(taking.next(), None);
    assert_eq!(taking.next(), None);
    assert_eq!(taking.next(), None);
}

#[test]
fn take_while_may_take_everything_or_nothing() {
    let all = TakeWhile::new(vec![0, 1, 0].into_lending(), |x: &i32| *x < 2);
    assert_eq!(into_vec(all), vec![0, 1, 0]);
    let none = TakeWhile::new(vec![7, 0, 1].into_lending(), |x: &i32| *x < 2);
    assert_eq!(into_vec(none), Vec::<i32>::new());
}

#[test]
fn skip_passes_over_a_prefix() {
    assert_eq!(into_vec(vec![0, 1, 2, 3].into_lending().skip(2)), vec![2, 3]);
    assert_eq!(into_vec(vec![0, 1, 2, 3].into_lending().skip(0)), vec![0, 1, 2, 3]);
    assert_eq!(into_vec(vec![0, 1].into_lending().skip(5)), Vec::<i32>::new());
}
