use core::ops::ControlFlow;
use lending_iter::{into_vec, LendingIterator, LendingIteratorExt, Peekable, ToLendingIterator};

#[test]
fn peekable_test() {
    assert_eq!(
        Peekable::new((0..5).into_lending()).skip(1).nth(1),
        (0..5).skip(1).nth(1)
    );
    assert_eq!(
        Peekable::new((0..5).into_lending()).peek(),
        (0..5).peekable().peek()
    );

    let mut peekable = Peekable::new(vec![0, 1].into_lending());
    assert_eq!(peekable.next(), Some(0));
    assert_eq!(peekable.next(), Some(1));
    assert_eq!(peekable.next(), None);
    peekable = Peekable::new(vec![0, 1, 2].into_lending());
    {
        let pin = &mut peekable;
        assert_eq!(pin.peek(), Some(&0));
        assert_eq!(pin.peek(), Some(&0));
        assert_eq!(pin.peek_mut(), Some(&mut 0));
        assert_eq!(pin.next(), Some(0));
        assert_eq!(pin.next(), Some(1));
        assert_eq!(pin.peek(), Some(&2));
        let peekable = pin.unpin();
        assert_eq!(peekable.next(), None);
    }
}

#[test]
fn skip_then_nth_yields_element_at_index_two() {
    let mut skipped = vec![0, 1, 2, 3, 4].into_lending().skip(1);
    assert_eq!(skipped.nth(1), Some(2));
    assert_eq!(skipped.next(), Some(3));
}

#[test]
fn fresh_peekable_peeks_without_consuming() {
    let mut peekable = vec![0, 1, 2].into_lending().peekable();
    assert_eq!(peekable.peek(), Some(&0));
    assert_eq!(peekable.next(), Some(0));
    assert_eq!(peekable.next(), Some(1));
    assert_eq!(peekable.peek(), Some(&2));
}

#[test]
fn peek_twice_shows_the_same_element_and_keeps_everything() {
    let mut peekable = vec![7, 8, 9].into_lending().peekable();
    let first = peekable.peek().copied();
    let second = peekable.peek().copied();
    assert_eq!(first, Some(7));
    assert_eq!(second, Some(7));
    assert_eq!(into_vec(peekable), vec![7, 8, 9]);
}

#[test]
fn peek_at_the_end_is_remembered() {
    let mut peekable = Vec::<i32>::new().into_lending().peekable();
    assert_eq!(peekable.peek(), None);
    assert_eq!(peekable.peek(), None);
    assert_eq!(peekable.size_hint(), (0, Some(0)));
    assert_eq!(peekable.next(), None);
    assert_eq!(peekable.next(), None);
}

#[test]
fn peek_mut_changes_what_comes_next() {
    let mut peekable = vec![1, 2].into_lending().peekable();
    if let Some(x) = peekable.peek_mut() {
        *x = 10;
    }
    assert_eq!(into_vec(peekable), vec![10, 2]);
}

#[test]
fn next_if_hands_out_a_peeked_element_that_passes() {
    let mut peekable = vec![1, 2, 3].into_lending().peekable();
    assert_eq!(peekable.peek(), Some(&1));
    assert_eq!(peekable.next_if(|x| *x == 1), Some(1));
    assert_eq!(into_vec(peekable), vec![2, 3]);
}

#[test]
fn next_if_keeps_a_peeked_element_that_fails() {
    let mut peekable = vec![1, 2, 3].into_lending().peekable();
    assert_eq!(peekable.peek(), Some(&1));
    assert_eq!(peekable.next_if(|x| *x > 5), None);
    assert_eq!(peekable.next_if(|x| *x > 5), None);
    assert_eq!(into_vec(peekable), vec![1, 2, 3]);
}

#[test]
fn next_if_with_an_empty_slot_advances_unasked() {
    let mut peekable = vec![1, 2, 3].into_lending().peekable();
    assert_eq!(peekable.next_if(|x| *x > 5), Some(1));
    assert_eq!(into_vec(peekable), vec![2, 3]);
}

#[test]
fn next_if_after_the_end_was_peeked_gives_nothing() {
    let mut peekable = vec![1].into_lending().peekable();
    assert_eq!(peekable.next(), Some(1));
    assert_eq!(peekable.peek(), None);
    assert_eq!(peekable.next_if(|_| true), None);
    assert_eq!(peekable.next(), None);
}

#[test]
fn next_if_eq_compares_the_peeked_element() {
    let mut peekable = vec![1, 2, 3].into_lending().peekable();
    assert_eq!(peekable.peek(), Some(&1));
    assert_eq!(peekable.next_if_eq(&2), None);
    assert_eq!(peekable.next_if_eq(&1), Some(1));
    assert_eq!(peekable.peek(), Some(&2));
    assert_eq!(peekable.next_if_eq(&2), Some(2));
    assert_eq!(into_vec(peekable), vec![3]);
}

#[test]
fn release_loses_the_peeked_element() {
    let mut peekable = vec![1, 2, 3].into_lending().peekable();
    assert_eq!(peekable.peek(), Some(&1));
    let released = peekable.unpin();
    assert_eq!(released.next(), Some(2));
    assert_eq!(released.next(), Some(3));
    assert_eq!(released.next(), None);
}

#[test]
fn release_with_an_empty_slot_loses_nothing() {
    let mut peekable = vec![1, 2].into_lending().peekable();
    let released = peekable.unpin();
    assert_eq!(released.next(), Some(1));
    assert_eq!(released.next(), Some(2));
}

#[test]
fn peekable_size_hint_follows_the_slot() {
    let mut peekable = vec![1, 2, 3].into_lending().peekable();
    assert_eq!(peekable.size_hint(), (3, Some(3)));
    assert_eq!(peekable.peek(), Some(&1));
    assert_eq!(peekable.size_hint(), (1, None));
}

#[test]
fn peekable_counts_the_peeked_element() {
    let mut peekable = vec![1, 2, 3].into_lending().peekable();
    assert_eq!(peekable.peek(), Some(&1));
    assert_eq!(peekable.count(), 3);

    let mut ended = Vec::<i32>::new().into_lending().peekable();
    assert_eq!(ended.peek(), None);
    assert_eq!(ended.count(), 0);

    let fresh = vec![1, 2].into_lending().peekable();
    assert_eq!(fresh.count(), 2);
}

#[test]
fn peekable_nth_counts_from_the_peeked_element() {
    let mut peekable = vec![10, 11, 12, 13].into_lending().peekable();
    assert_eq!(peekable.peek(), Some(&10));
    assert_eq!(peekable.nth(0), Some(10));
    assert_eq!(peekable.peek(), Some(&11));
    assert_eq!(peekable.nth(2), Some(13));
    assert_eq!(peekable.peek(), None);
    assert_eq!(peekable.nth(0), None);
}

#[test]
fn peekable_folds_the_peeked_element_first() {
    let mut peekable = vec![1, 2, 3].into_lending().peekable();
    assert_eq!(peekable.peek(), Some(&1));
    let digits = peekable.fold(0, |acc, x| acc * 10 + x);
    assert_eq!(digits, 123);
}

#[test]
fn peekable_try_fold_stops_on_the_peeked_element() {
    let mut peekable = vec![5, 1, 2].into_lending().peekable();
    assert_eq!(peekable.peek(), Some(&5));
    let out = peekable.try_fold(0, |acc, x| {
        if x > 4 {
            ControlFlow::Break(acc)
        } else {
            ControlFlow::Continue(acc + x)
        }
    });
    assert_eq!(out, ControlFlow::Break(0));
    assert_eq!(into_vec(peekable), vec![1, 2]);
}

#[test]
fn peekable_try_fold_runs_through() {
    let mut peekable = vec![1, 2, 3].into_lending().peekable();
    assert_eq!(peekable.peek(), Some(&1));
    let out: ControlFlow<(), i32> = peekable.try_fold(0, |acc, x| ControlFlow::Continue(acc + x));
    assert_eq!(out, ControlFlow::Continue(6));
    assert_eq!(peekable.next(), None);
}

#[test]
fn peekable_shows_its_lender_and_its_slot() {
    let mut peekable = vec![1, 2].into_lending().peekable();
    assert_eq!(
        format!("{:?}", peekable),
        "Peekable { lender: IntoLending { items: [1, 2] }, peeked: None }"
    );
    assert_eq!(peekable.peek(), Some(&1));
    assert_eq!(
        format!("{:?}", peekable),
        "Peekable { lender: IntoLending { items: [2] }, peeked: Some(Some(1)) }"
    );
}
