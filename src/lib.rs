// A simulated order-matching and position-accounting engine for backtests.
//
// Prices are whole price units and sizes whole size units, chosen by the
// caller (hundredths of a point, contracts, ...). `broker` walks the pending
// orders against each observation: `execution` decides triggers and fill
// prices, `netting` folds fills into trades with average-cost accounting.
// `laws` states and proves properties that relate these steps.
use vstd::prelude::*;

pub mod broker;
pub mod consolidation;
pub mod data;
pub mod engine;
pub mod execution;
pub mod indicator;
pub mod laws;
pub mod netting;
pub mod tradestation;
pub mod types;

verus! {

} // verus!
