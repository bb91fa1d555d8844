use core::ops::ControlFlow;
use lending_iter::{
    into_vec, ExactSizeLendingIterator, IntoLending, LendRange, LendRefs, LendingIterator,
    LendingIteratorExt, ToLendingIterator,
};

#[test]
fn next_hands_out_the_elements_in_order() {
    let mut lender = vec!['a', 'b'].into_lending();
    assert_eq!(lender.next(), Some('a'));
    assert_eq!(lender.next(), Some('b'));
    assert_eq!(lender.next(), None);
    assert_eq!(lender.next(), None);
}

#[test]
fn a_range_lends_its_numbers() {
    assert_eq!(into_vec((2..6).into_lending()), vec![2, 3, 4, 5]);
    assert_eq!(into_vec(LendRange::new(2, 6)), vec![2, 3, 4, 5]);
    assert_eq!(into_vec((6..2).into_lending()), Vec::<usize>::new());
    assert_eq!((2..6).into_lending().size_hint(), (4, Some(4)));
}

#[test]
fn a_vector_comes_back_as_it_went_in() {
    assert_eq!(into_vec(IntoLending::new(vec![3, 1, 2])), vec![3, 1, 2]);
    assert_eq!(vec![3, 1, 2].into_lending().size_hint(), (3, Some(3)));
}

#[test]
fn advance_by_zero_always_succeeds() {
    let mut lender = vec![1, 2].into_lending();
    assert_eq!(lender.advance_by(0), Ok(()));
    assert_eq!(lender.next(), Some(1));
    let mut empty = Vec::<i32>::new().into_lending();
    assert_eq!(empty.advance_by(0), Ok(()));
}

#[test]
fn advance_by_skips_exactly_that_many() {
    let mut lender = vec![1, 2, 3, 4].into_lending();
    assert_eq!(lender.advance_by(3), Ok(()));
    assert_eq!(lender.next(), Some(4));
    let mut all = vec![1, 2, 3, 4].into_lending();
    assert_eq!(all.advance_by(4), Ok(()));
    assert_eq!(all.next(), None);
}

#[test]
fn advance_by_reports_the_shortfall_and_exhausts_the_source() {
    let mut lender = vec![1, 2, 3].into_lending();
    assert_eq!(lender.advance_by(5), Err(2));
    assert_eq!(lender.next(), None);
    let mut empty = Vec::<i32>::new().into_lending();
    assert_eq!(empty.advance_by(1), Err(1));
}

#[test]
fn nth_counts_from_zero_and_consumes() {
    let mut lender = vec![10, 11, 12, 13].into_lending();
    assert_eq!(lender.nth(0), Some(10));
    assert_eq!(lender.nth(1), Some(12));
    assert_eq!(lender.nth(5), None);
    assert_eq!(lender.next(), None);
}

#[test]
fn last_is_the_last_element() {
    let mut lender = vec![10, 11, 12].into_lending();
    assert_eq!(lender.len(), 3);
    assert_eq!(lender.last(), Some(12));
    assert_eq!(lender.len(), 0);
    let mut empty = Vec::<i32>::new().into_lending();
    assert_eq!(empty.last(), None);
}

#[test]
fn count_counts_what_remains() {
    let mut lender = vec![1, 2, 3, 4].into_lending();
    assert_eq!(lender.next(), Some(1));
    assert_eq!(lender.count(), 3);
    assert_eq!(Vec::<i32>::new().into_lending().count(), 0);
}

#[test]
fn fold_visits_in_order_once_each() {
    let digits = vec![1, 2, 3].into_lending().fold(0, |acc, x| acc * 10 + x);
    assert_eq!(digits, 123);
    let untouched = Vec::<i32>::new().into_lending().fold(7, |acc, x| acc + x);
    assert_eq!(untouched, 7);
}

#[test]
fn for_each_calls_on_each_element_in_order() {
    let mut seen = Vec::new();
    vec![1, 2, 3].into_lending().for_each(|x| seen.push(x));
    assert_eq!(seen, vec![1, 2, 3]);
}

#[test]
fn try_fold_stops_at_the_first_request() {
    let mut lender = vec![1, 2, 30, 4, 50].into_lending();
    let out = lender.try_fold(0, |acc, x| {
        if x > 10 {
            ControlFlow::Break(x)
        } else {
            ControlFlow::Continue(acc + x)
        }
    });
    assert_eq!(out, ControlFlow::Break(30));
    assert_eq!(into_vec(lender), vec![4, 50]);
}

#[test]
fn try_fold_runs_through_where_nothing_stops_it() {
    let mut lender = vec![1, 2, 3].into_lending();
    let out: ControlFlow<i32, i32> = lender.try_fold(10, |acc, x| ControlFlow::Continue(acc + x));
    assert_eq!(out, ControlFlow::Continue(16));
    assert_eq!(lender.next(), None);
}

#[test]
fn try_for_each_stops_at_the_first_request() {
    let mut seen = Vec::new();
    let mut lender = vec![1, 2, 30, 4].into_lending();
    let out = lender.try_for_each(|x| {
        seen.push(x);
        if x > 10 {
            ControlFlow::Break("too big")
        } else {
            ControlFlow::Continue(())
        }
    });
    assert_eq!(out, ControlFlow::Break("too big"));
    assert_eq!(seen, vec![1, 2, 30]);
    assert_eq!(into_vec(lender), vec![4]);
}

#[test]
fn try_for_each_runs_through_where_nothing_stops_it() {
    let mut count = 0;
    let mut lender = vec![1, 2, 3].into_lending();
    let out: ControlFlow<()> = lender.try_for_each(|_| {
        count += 1;
        ControlFlow::Continue(())
    });
    assert_eq!(out, ControlFlow::Continue(()));
    assert_eq!(count, 3);
}

#[test]
fn default_size_hint_promises_nothing() {
    assert_eq!(vec![1, 2, 3].into_lending().take(2).size_hint(), (0, None));
}

#[test]
fn references_are_lent_through_adapters() {
    let words = vec![String::from("a"), String::from("b"), String::from("c")];
    let mut lender = LendRefs::new(words).step_by(2);
    assert_eq!(lender.next().map(|word| word.as_str()), Some("a"));
    assert_eq!(lender.next().map(|word| word.as_str()), Some("c"));
    assert_eq!(lender.next(), None);
}

#[test]
fn a_lent_reference_points_into_the_lender() {
    let mut lender = LendRefs::new(vec![10, 20]);
    assert_eq!(lender.len(), 2);
    assert_eq!(lender.next(), Some(&10));
    assert_eq!(lender.size_hint(), (1, Some(1)));
    assert_eq!(lender.last(), Some(&20));
    assert_eq!(lender.next(), None);
}
