pub mod candidate;
pub mod delegate;
pub mod epoch;

pub use crate::models::candidate::{Candidate, CandidateSet};
pub use crate::models::delegate::Delegation;
pub use crate::models::epoch::{Epoch, EpochView};

use crate::types::Error;
use vstd::prelude::*;

verus! {

/// Result of an operation that yields a value.
pub type DispatchResultWithValue<T> = Result<T, Error>;

} // verus!
