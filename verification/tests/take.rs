use lending_iter::{into_vec, LendingIterator, LendingIteratorExt, Take, ToLendingIterator};

#[test]
fn take_test() {
    assert_eq!(
        (0..usize::MAX)
            .into_lending()
            .map(|_| ())
            .take(5)
            .fold(0, |count, ()| { count + 1 }),
        5
    );
}

#[test]
fn take_lends_a_prefix_in_order() {
    assert_eq!(into_vec(vec![3, 1, 4, 1, 5].into_lending().take(3)), vec![3, 1, 4]);
    assert_eq!(into_vec(Take::new(vec![3, 1, 4, 1, 5].into_lending(), 3)), vec![3, 1, 4]);
}

#[test]
fn take_of_a_shorter_source_lends_all_of_it() {
    assert_eq!(into_vec(vec![3, 1].into_lending().take(5)), vec![3, 1]);
    assert_eq!(vec![3, 1].into_lending().take(5).count(), 2);
    assert_eq!(vec![3, 1, 4].into_lending().take(3).count(), 3);
}

#[test]
fn take_zero_lends_nothing() {
    let mut take = vec![1, 2, 3].into_lending().take(0);
    assert_eq!(take.next(), None);
    assert_eq!(take.next(), None);
}

#[test]
fn take_stays_at_its_end() {
    let mut take = vec![1, 2, 3].into_lending().take(2);
    assert_eq!(take.next(), Some(1));
    assert_eq!(take.next(), Some(2));
    assert_eq!(take.next(), None);
    assert_eq!(take.next(), None);
    assert_eq!(take.next(), None);
}
