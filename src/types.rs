use vstd::prelude::*;

verus! {

/// Which way an order trades.
#[derive(Clone, Copy, Debug, PartialEq, Eq, Structural)]
pub enum OrderSide {
    Buy,
    Sell,
}

/// The signed quantity of `size` units traded on `side`: positive for a buy,
/// negative for a sell.
pub open spec fn signed_qty(side: OrderSide, size: int) -> int {
    match side {
        OrderSide::Buy => size,
        OrderSide::Sell => -size,
    }
}

/// How an order is allowed to execute. Prices are in whole price units.
#[derive(Clone, Copy, Debug, PartialEq, Eq, Structural)]
pub enum OrderType {
    /// Executes at the market on the next observation.
    Market,
    /// Executes at the given price or better.
    Limit(u64),
    /// Becomes executable once the market trades through the given price.
    Stop(u64),
    /// A stop at the first price that then executes no worse than the second.
    StopLimit(u64, u64),
}

/// An order of a strategy. `id` is `None` until the broker accepts the order;
/// `size` is the quantity that is still to be filled, in whole size units.
#[derive(Clone, Copy, Debug, PartialEq, Eq, Structural)]
pub struct Order {
    pub id: Option<usize>,
    /// The trade that this order scales or closes, if any.
    pub related_id: Option<usize>,
    pub instrument: u32,
    pub strategy_id: u32,
    pub side: OrderSide,
    pub order_type: OrderType,
    pub size: u64,
}

/// One execution of (part of) an order. Fills are never changed once recorded.
#[derive(Clone, Copy, Debug, PartialEq, Eq, Structural)]
pub struct Fill {
    pub id: usize,
    pub instrument: u32,
    pub strategy_id: u32,
    pub order_id: usize,
    pub side: OrderSide,
    pub size: u64,
    pub price: u64,
}

/// A position built from fills. `size` is signed (positive long, negative
/// short, zero once closed); `entry_price` is the average entry price,
/// rounded down to a whole price unit; `entry_index` and `exit_index` count the
/// fills recorded when the trade was opened and when it was closed.
#[derive(Clone, Debug)]
pub struct Trade {
    pub id: usize,
    pub instrument: u32,
    pub strategy_id: u32,
    pub fills: Vec<usize>,
    pub size: i64,
    pub entry_price: u64,
    pub entry_index: usize,
    pub exit_price: Option<u64>,
    pub exit_index: Option<usize>,
}

/// The mathematical value of a [`Trade`].
pub struct TradeView {
    pub id: usize,
    pub instrument: u32,
    pub strategy_id: u32,
    pub fills: Seq<usize>,
    pub size: int,
    pub entry_price: int,
    pub entry_index: usize,
    pub exit_price: Option<int>,
    pub exit_index: Option<usize>,
}

/// An optional price as an optional number.
pub open spec fn opt_int(p: Option<u64>) -> Option<int> {
    match p {
        Some(x) => Some(x as int),
        None => None,
    }
}

impl View for Trade {
    type V = TradeView;

    open spec fn view(&self) -> TradeView {
        TradeView {
            id: self.id,
            instrument: self.instrument,
            strategy_id: self.strategy_id,
            fills: self.fills@,
            size: self.size as int,
            entry_price: self.entry_price as int,
            entry_index: self.entry_index,
            exit_price: opt_int(self.exit_price),
            exit_index: self.exit_index,
        }
    }
}

/// Profit or loss of a trade that has an exit price: `size * (exit - entry)`.
pub open spec fn trade_pnl(t: TradeView) -> Option<int> {
    match t.exit_price {
        Some(exit) => Some(t.size * (exit - t.entry_price)),
        None => None,
    }
}

impl Trade {
    /// The profit or loss of the trade in size units times price units, or
    /// `None` while the trade has no exit price.
    pub fn pnl(&self) -> (r: Option<i128>)
        ensures
            match r {
                Some(v) => trade_pnl(self@) == Some(v as int),
                None => trade_pnl(self@) is None,
            },
    {
        match self.exit_price {
            Some(exit) => {
                let diff: i128 = exit as i128 - self.entry_price as i128;
                assert(-0x1_0000_0000_0000_0000 < diff < 0x1_0000_0000_0000_0000);
                let size: i128 = self.size as i128;
                assert(-0x8000_0000_0000_0000 <= size < 0x8000_0000_0000_0000);
                proof {
                    lemma_mul_bound(size as int, diff as int);
                }
                Some(size * diff)
            },
            None => None,
        }
    }
}

proof fn lemma_mul_bound(a: int, b: int)
    requires
        -0x8000_0000_0000_0000 <= a < 0x8000_0000_0000_0000,
        -0x1_0000_0000_0000_0000 < b < 0x1_0000_0000_0000_0000,
    ensures
        -0x8000_0000_0000_0000_0000_0000_0000_0000 < a * b < 0x8000_0000_0000_0000_0000_0000_0000_0000,
{
    assert(-0x8000_0000_0000_0000_0000_0000_0000_0000 < a * b < 0x8000_0000_0000_0000_0000_0000_0000_0000)
        by (nonlinear_arith)
        requires
            -0x8000_0000_0000_0000 <= a < 0x8000_0000_0000_0000,
            -0x1_0000_0000_0000_0000 < b < 0x1_0000_0000_0000_0000,
    ;
}

/// What kind of contract an instrument is. `big_point_value` is the value of
/// one whole price point of a futures contract.
#[derive(Clone, Debug, PartialEq, Eq)]
pub enum InstrumentType {
    Stock,
    Futures { expiry: String, big_point_value: u64 },
}

/// A tradable instrument. `id` is `None` until the broker registers it.
#[derive(Clone, Debug, PartialEq, Eq)]
pub struct Instrument {
    pub id: Option<u32>,
    pub symbol: String,
    pub exchange: Option<String>,
    pub instrument_type: InstrumentType,
}

/// A trading account; the balance is in the account currency's smallest unit.
#[derive(Clone, Debug)]
pub struct Account {
    pub id: String,
    pub balance: i64,
}

} // verus!
