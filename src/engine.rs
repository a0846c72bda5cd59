use vstd::prelude::*;

use crate::types::Order;

verus! {

/// The execution engine of a backtest. Orders are matched by the broker when
/// it simulates fills, so executing an order here leaves it as it is.
pub struct BacktestingExecutionEngine {}

impl BacktestingExecutionEngine {
    /// Hands one order to the engine.
    pub fn execute_order(&mut self, order: &mut Order)
        ensures
            *final(order) == *old(order),
    {
    }
}

} // verus!
