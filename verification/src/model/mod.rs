//! The vocabulary of the contracts: what the traversal algorithms and the
//! adapters do, said over sequences of elements.
pub mod folds;
pub mod functions;
pub mod hints;
pub mod pairs;
pub mod positions;
pub mod predicates;
pub mod strides;
pub mod try_folds;

pub use self::folds::{
    each_callable, fold_callable, folds_to, lemma_counting_fold, lemma_fold_callable_cons,
    lemma_folds_to_cons, lemma_folds_to_push, visits,
};
pub use self::functions::{computes, computes_on, lemma_computes_on_skipped, lemma_filter_map_head};
pub use self::hints::{added_hints, lesser_hints, thinned_hint};
pub use self::pairs::{numbered, zipped};
pub use self::positions::{at, front, lemma_skipped_twice, skipped, taken, used};
pub use self::predicates::{
    affirms, implements_on, leading, lemma_filter_head, lemma_implements_on_skipped,
    lemma_leading_is_longest_prefix, lemma_leading_is_unique,
};
pub use self::strides::{
    lemma_stride_count_is_ceiling, lemma_stride_in_range, lemma_strided_advance, stride_count,
    strided,
};
pub use self::try_folds::{
    continues_to, lemma_continues_to_cons, lemma_continues_to_push, lemma_try_fold_callable_cons,
    lemma_try_folds_to_cons, lemma_try_folds_to_first, try_fold_callable, try_folds_to, try_visits,
};
