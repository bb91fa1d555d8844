use lending_iter::{into_vec, LendingIterator, LendingIteratorExt, StepBy, ToLendingIterator};

#[test]
fn step_by_lends_every_kth_element() {
    assert_eq!(into_vec((0..10).into_lending().step_by(3)), vec![0, 3, 6, 9]);
    assert_eq!(into_vec(StepBy::new((0..10).into_lending(), 3)), vec![0, 3, 6, 9]);
    assert_eq!(into_vec(vec![5, 6, 7, 8, 9].into_lending().step_by(2)), vec![5, 7, 9]);
}

#[test]
fn step_by_one_lends_everything() {
    assert_eq!(into_vec((0..4).into_lending().step_by(1)), vec![0, 1, 2, 3]);
}

#[test]
fn step_by_counts_the_rounded_up_quotient() {
    assert_eq!((0..5).into_lending().step_by(2).count(), 3);
    assert_eq!((0..6).into_lending().step_by(3).count(), 2);
    assert_eq!((0..7).into_lending().step_by(3).count(), 3);
    assert_eq!((0..1).into_lending().step_by(5).count(), 1);
    assert_eq!((0..0).into_lending().step_by(5).count(), 0);
    assert_eq!((0..10).into_lending().step_by(10).count(), 1);
    assert_eq!((0..11).into_lending().step_by(10).count(), 2);
}

#[test]
fn step_by_steps_one_call_at_a_time() {
    let mut stepped = vec![0, 1, 2, 3, 4].into_lending().step_by(2);
    assert_eq!(stepped.next(), Some(0));
    assert_eq!(stepped.next(), Some(2));
    assert_eq!(stepped.next(), Some(4));
    assert_eq!(stepped.next(), None);
    assert_eq!(stepped.next(), None);
}
