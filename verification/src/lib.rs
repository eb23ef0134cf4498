//! Single-pass search for the majority element of a stream: the element, if
//! there is one, that holds more than half of the positions. The searches use
//! nothing of the elements but `==`, which has to be an equivalence relation,
//! and return a borrowed element of the stream.
//!
//! - [`boyer_moore`] keeps one candidate and a vote count, then counts the
//!   candidate.
//! - [`fischer_salzberg`] collapses runs of equal elements into a list and a
//!   bucket, then matches the list's elements from its end.
//! - [`matula_tournament`] is the place of a third search and finds nothing.
//!
//! The first two return the same for every stream. The module `laws` states
//! this, and what else their contracts imply of their results.

mod bucket;
pub mod collapse;
pub mod count;
pub mod equality;
pub mod laws;
pub mod tournament;
pub mod vote;

pub use collapse::fischer_salzberg;
pub use tournament::matula_tournament;
pub use vote::boyer_moore;
