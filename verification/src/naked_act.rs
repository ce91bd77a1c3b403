//! The caps of the pass that completes naked legs.
use vstd::prelude::*;

verus! {

/// The most contracts that one order of the pass may trade.
pub const MAX_CLIP: i64 = 5;

/// The most orders that it sends in a cycle: a wrong read of a venue costs two
/// orders and not thirty.
pub const MAX_ACTIONS_PER_CYCLE: u64 = 2;

} // verus!
