pub mod chain;
pub mod enumerate;
pub mod filter;
pub mod filter_map;
pub mod map;
pub mod peekable;
pub mod skip;
pub mod skip_while;
pub mod step_by;
pub mod take;
pub mod take_while;
pub mod zip;

pub use self::chain::Chain;
pub use self::enumerate::Enumerate;
pub use self::filter::Filter;
pub use self::filter_map::FilterMap;
pub use self::map::Mapped;
pub use self::peekable::{PeekState, Peekable};
pub use self::skip::Skip;
pub use self::skip_while::SkipWhile;
pub use self::step_by::StepBy;
pub use self::take::Take;
pub use self::take_while::TakeWhile;
pub use self::zip::Zip;
