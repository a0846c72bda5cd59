use vstd::prelude::*;

verus! {

/// One trade printed by the market: `price` in price units, `size` in size
/// units, `timestamp` as the data source gives it.
#[derive(Clone, Copy, Debug, PartialEq, Eq, Structural)]
pub struct Tick {
    pub timestamp: i64,
    pub price: u64,
    pub size: u64,
}

/// A bar of prices. `date` is the bar's start in seconds since
/// 1970-01-01T00:00:00, read without a time zone.
#[derive(Clone, Copy, Debug, PartialEq, Eq, Structural)]
pub struct Bar {
    pub date: i64,
    pub open: u64,
    pub high: u64,
    pub low: u64,
    pub close: u64,
    pub volume: u64,
}

/// One observation of the market.
#[derive(Clone, Copy, Debug, PartialEq, Eq, Structural)]
pub enum MarketData {
    Tick(Tick),
    Bar(Bar),
}

/// The smaller of two numbers.
pub open spec fn min2(a: int, b: int) -> int {
    if a <= b {
        a
    } else {
        b
    }
}

/// The larger of two numbers.
pub open spec fn max2(a: int, b: int) -> int {
    if a >= b {
        a
    } else {
        b
    }
}

/// The quantity that an observation offers to fill orders.
pub open spec fn available_of(d: MarketData) -> int {
    match d {
        MarketData::Tick(t) => t.size as int,
        MarketData::Bar(b) => b.volume as int,
    }
}

/// The lowest price at which an observation traded: a bar's lowest of open,
/// high, low and close.
pub open spec fn low_of(d: MarketData) -> int {
    match d {
        MarketData::Tick(t) => t.price as int,
        MarketData::Bar(b) => min2(min2(b.open as int, b.high as int), min2(b.low as int, b.close as int)),
    }
}

/// The highest price at which an observation traded: a bar's highest of open,
/// high, low and close.
pub open spec fn high_of(d: MarketData) -> int {
    match d {
        MarketData::Tick(t) => t.price as int,
        MarketData::Bar(b) => max2(max2(b.open as int, b.high as int), max2(b.low as int, b.close as int)),
    }
}

/// The price at which a market order executes: the tick's price or the bar's open.
pub open spec fn market_price_of(d: MarketData) -> int {
    match d {
        MarketData::Tick(t) => t.price as int,
        MarketData::Bar(b) => b.open as int,
    }
}

fn min_u64(a: u64, b: u64) -> (r: u64)
    ensures
        r == min2(a as int, b as int),
{
    if a <= b {
        a
    } else {
        b
    }
}

fn max_u64(a: u64, b: u64) -> (r: u64)
    ensures
        r == max2(a as int, b as int),
{
    if a >= b {
        a
    } else {
        b
    }
}

impl MarketData {
    /// The available quantity and the `(low, high)` price range of this observation.
    pub fn liquidity_and_range(&self) -> (r: (u64, u64, u64))
        ensures
            r.0 == available_of(*self),
            r.1 == low_of(*self),
            r.2 == high_of(*self),
            r.1 <= r.2,
    {
        match self {
            MarketData::Tick(t) => (t.size, t.price, t.price),
            MarketData::Bar(b) => {
                let low = min_u64(min_u64(b.open, b.high), min_u64(b.low, b.close));
                let high = max_u64(max_u64(b.open, b.high), max_u64(b.low, b.close));
                (b.volume, low, high)
            },
        }
    }

    /// The price at which a market order executes against this observation.
    pub fn market_price(&self) -> (r: u64)
        ensures
            r == market_price_of(*self),
    {
        match self {
            MarketData::Tick(t) => t.price,
            MarketData::Bar(b) => b.open,
        }
    }
}

/// Hands out a sequence of observations one at a time, in order.
pub struct BacktestingDataFeed<'a> {
    index: usize,
    data: &'a [MarketData],
}

impl<'a> BacktestingDataFeed<'a> {
    /// A feed that starts at the first observation of `data`.
    pub fn new(data: &'a [MarketData]) -> (r: Self)
        ensures
            r.position() == 0,
            r.items() == data@,
    {
        BacktestingDataFeed { index: 0, data }
    }

    /// How many observations the feed has handed out.
    pub closed spec fn position(&self) -> nat {
        self.index as nat
    }

    /// The observations the feed hands out.
    pub closed spec fn items(&self) -> Seq<MarketData> {
        self.data@
    }

    /// The next observation, or `None` once all have been handed out.
    pub fn poll(&mut self) -> (r: Option<MarketData>)
        ensures
            final(self).items() == old(self).items(),
            old(self).position() < old(self).items().len() ==> r == Some(
                old(self).items()[old(self).position() as int],
            ) && final(self).position() == old(self).position() + 1,
            old(self).position() >= old(self).items().len() ==> r is None && final(self).position()
                == old(self).position(),
    {
        if self.data.len() == 0 || self.index >= self.data.len() {
            return None;
        }
        let cur = self.data[self.index];
        self.index = self.index + 1;
        Some(cur)
    }
}

} // verus!
