use vstd::prelude::*;

use crate::data::{max2, min2};
use crate::types::{OrderSide, OrderType};

verus! {

/// Whether an order of this kind and side may execute against an observation
/// that traded between `low` and `high`.
pub open spec fn triggers(kind: OrderType, side: OrderSide, low: int, high: int) -> bool {
    match kind {
        OrderType::Market => true,
        OrderType::Limit(l) => match side {
            OrderSide::Buy => low <= l,
            OrderSide::Sell => high >= l,
        },
        OrderType::Stop(s) => match side {
            OrderSide::Buy => high >= s,
            OrderSide::Sell => low <= s,
        },
        OrderType::StopLimit(s, l) => match side {
            OrderSide::Buy => high >= s && low <= l,
            OrderSide::Sell => low <= s && high >= l,
        },
    }
}

/// The price at which a triggered order executes against an observation that
/// traded between `low` and `high` and whose market price is `market`.
///
/// A limit or stop price inside the traded range fills exactly; one outside
/// it fills at the bound given for the side. A stop-limit fills at its stop
/// when the stop was reached and the limit holds, else at the limit bound.
pub open spec fn fill_price_of(kind: OrderType, side: OrderSide, low: int, high: int, market: int) -> int {
    match kind {
        OrderType::Market => market,
        OrderType::Limit(l) => if low <= l && l <= high {
            l as int
        } else {
            match side {
                OrderSide::Buy => max2(l as int, high),
                OrderSide::Sell => min2(l as int, low),
            }
        },
        OrderType::Stop(s) => if low <= s && s <= high {
            s as int
        } else {
            match side {
                OrderSide::Buy => min2(s as int, low),
                OrderSide::Sell => max2(s as int, high),
            }
        },
        OrderType::StopLimit(s, l) => {
            let within_limit = match side {
                OrderSide::Buy => low <= l,
                OrderSide::Sell => high >= l,
            };
            if high >= s && within_limit {
                s as int
            } else {
                match side {
                    OrderSide::Buy => min2(l as int, low),
                    OrderSide::Sell => max2(l as int, high),
                }
            }
        },
    }
}

/// Decides whether an order may execute against an observation that traded
/// between `low` and `high`.
pub fn is_triggered(kind: OrderType, side: OrderSide, low: u64, high: u64) -> (r: bool)
    ensures
        r == triggers(kind, side, low as int, high as int),
{
    match kind {
        OrderType::Market => true,
        OrderType::Limit(l) => match side {
            OrderSide::Buy => low <= l,
            OrderSide::Sell => high >= l,
        },
        OrderType::Stop(s) => match side {
            OrderSide::Buy => high >= s,
            OrderSide::Sell => low <= s,
        },
        OrderType::StopLimit(s, l) => match side {
            OrderSide::Buy => high >= s && low <= l,
            OrderSide::Sell => low <= s && high >= l,
        },
    }
}

/// Computes the execution price of a triggered order.
pub fn fill_price(kind: OrderType, side: OrderSide, low: u64, high: u64, market: u64) -> (r: u64)
    ensures
        r == fill_price_of(kind, side, low as int, high as int, market as int),
{
    match kind {
        OrderType::Market => market,
        OrderType::Limit(l) => {
            if low <= l && l <= high {
                l
            } else {
                match side {
                    OrderSide::Buy => if l >= high { l } else { high },
                    OrderSide::Sell => if l <= low { l } else { low },
                }
            }
        },
        OrderType::Stop(s) => {
            if low <= s && s <= high {
                s
            } else {
                match side {
                    OrderSide::Buy => if s <= low { s } else { low },
                    OrderSide::Sell => if s >= high { s } else { high },
                }
            }
        },
        OrderType::StopLimit(s, l) => {
            let within_limit = match side {
                OrderSide::Buy => low <= l,
                OrderSide::Sell => high >= l,
            };
            if high >= s && within_limit {
                s
            } else {
                match side {
                    OrderSide::Buy => if l <= low { l } else { low },
                    OrderSide::Sell => if l >= high { l } else { high },
                }
            }
        },
    }
}

} // verus!
