use vstd::prelude::*;
use crate::key::DatabaseKeyIndex;

verus! {

/// What a query does when it takes part in a cycle.
#[derive(Clone, Copy, Debug, PartialEq, Eq, Structural)]
pub enum CycleRecoveryStrategy {
    /// The cycle is an error that unwinds to the outermost query.
    Panic,
    /// The cycle is broken by the query's fallback value.
    Fallback,
}

/// A cycle found on the active query stack: the queries that take part in it,
/// from the earlier occurrence of the repeated query to the top of the stack.
#[derive(Clone, Debug)]
pub struct Cycle {
    pub participants: Vec<DatabaseKeyIndex>,
}

} // verus!
