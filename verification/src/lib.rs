//! Lending iteration: a pull-based protocol in which a produced element may
//! borrow from the iterator that produced it, so that the rules of borrowing
//! let at most one element be alive at a time.
//!
//! Every iterator carries a mathematical model, the sequence of elements it
//! has yet to produce ([`LendingIterator::remaining`]). The contracts of the
//! traversal algorithms and of the adapters are stated over that sequence.
pub mod adapters;
pub mod model;
pub mod to_lending;
pub mod traits;

pub use crate::adapters::{
    Chain, Enumerate, Filter, FilterMap, Mapped, PeekState, Peekable, Skip, SkipWhile, StepBy, Take,
    TakeWhile, Zip,
};
pub use crate::to_lending::{into_vec, IntoLending, LendRange, LendRefs, ToLendingIterator};
pub use crate::traits::adapt::LendingIteratorExt;
pub use crate::traits::exact_size::ExactSizeLendingIterator;
pub use crate::traits::lending_iterator::LendingIterator;
