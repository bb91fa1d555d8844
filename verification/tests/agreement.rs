use lending_iter::{
    into_vec, Filter, LendingIterator, LendingIteratorExt, SkipWhile, ToLendingIterator,
};

fn source(len: usize) -> Vec<usize> {
    (0..len).map(|i| (i * 7 + 3) % 11).collect()
}

#[test]
fn take_agrees_with_the_standard_adapter() {
    for len in 0..8 {
        for n in 0..10 {
            let expected: Vec<usize> = source(len).into_iter().take(n).collect();
            assert_eq!(into_vec(source(len).into_lending().take(n)), expected);
            assert_eq!(expected.len(), len.min(n));
        }
    }
}

#[test]
fn skip_agrees_with_the_standard_adapter() {
    for len in 0..8 {
        for n in 0..10 {
            let expected: Vec<usize> = source(len).into_iter().skip(n).collect();
            assert_eq!(into_vec(source(len).into_lending().skip(n)), expected);
        }
    }
}

#[test]
fn step_by_agrees_with_the_standard_adapter() {
    for len in 0..12 {
        for step in 1..6 {
            let expected: Vec<usize> = source(len).into_iter().step_by(step).collect();
            assert_eq!(into_vec(source(len).into_lending().step_by(step)), expected);
            assert_eq!(expected.len(), (len + step - 1) / step);
        }
    }
}

#[test]
fn predicates_agree_with_the_standard_adapters() {
    for len in 0..12 {
        for bound in 0..12 {
            let expected: Vec<usize> = source(len).into_iter().take_while(|x| *x < bound).collect();
            let taking = source(len).into_lending().take_while(move |x: &usize| *x < bound);
            assert_eq!(into_vec(taking), expected);

            let expected: Vec<usize> = source(len).into_iter().skip_while(|x| *x < bound).collect();
            let skipping = SkipWhile::new(source(len).into_lending(), move |x: &usize| *x < bound);
            assert_eq!(into_vec(skipping), expected);

            let expected: Vec<usize> = source(len).into_iter().filter(|x| *x < bound).collect();
            let filtering = Filter::new(source(len).into_lending(), move |x: &usize| *x < bound);
            assert_eq!(into_vec(filtering), expected);
        }
    }
}

#[test]
fn traversals_agree_with_the_standard_methods() {
    for len in 0..8 {
        for n in 0..10 {
            let mut lender = source(len).into_lending();
            let mut iter = source(len).into_iter();
            assert_eq!(lender.nth(n), iter.nth(n));
            assert_eq!(into_vec(lender), iter.collect::<Vec<usize>>());

            let mut lender = source(len).into_lending();
            let outcome = lender.advance_by(n);
            if n <= len {
                assert_eq!(outcome, Ok(()));
                assert_eq!(into_vec(lender), source(len)[n..].to_vec());
            } else {
                assert_eq!(outcome, Err(n - len));
                assert_eq!(lender.next(), None);
            }
        }
        assert_eq!(source(len).into_lending().count(), len);
        let sum = source(len).into_lending().fold(0, |acc, x| acc + x);
        assert_eq!(sum, source(len).into_iter().sum::<usize>());
    }
}

#[test]
fn peeking_agrees_with_the_standard_adapter() {
    for len in 0..6 {
        let mut peekable = source(len).into_lending().peekable();
        let mut expected = source(len).into_iter().peekable();
        for step in 0..(2 * len + 2) {
            if step % 3 == 0 {
                assert_eq!(peekable.peek(), expected.peek());
            } else if step % 3 == 1 {
                assert_eq!(peekable.peek(), expected.peek());
                assert_eq!(
                    peekable.next_if(|x| *x % 2 == 0),
                    expected.next_if(|x| *x % 2 == 0)
                );
            } else {
                assert_eq!(peekable.next(), expected.next());
            }
        }
    }
}
