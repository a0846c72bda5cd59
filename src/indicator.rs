use vstd::prelude::*;

use crate::data::MarketData;

verus! {

/// The sum of a sequence of prices.
pub open spec fn sum_of(s: Seq<u64>) -> int
    decreases s.len(),
{
    if s.len() == 0 {
        0
    } else {
        sum_of(s.drop_last()) + s.last()
    }
}

/// The price an indicator reads from an observation: a bar's close or a tick's price.
pub open spec fn price_of(d: MarketData) -> u64 {
    match d {
        MarketData::Bar(b) => b.close,
        MarketData::Tick(t) => t.price,
    }
}

/// A simple moving average over the last `period` prices. `value` is the sum
/// of the window divided by the period, rounded down to a price unit; until
/// the window is full the missing prices count as zero.
pub struct MovingAverage {
    period: usize,
    value: u64,
    window: Vec<u64>,
}

impl MovingAverage {
    /// The number of prices the average is taken over.
    pub closed spec fn period_spec(&self) -> usize {
        self.period
    }

    /// The current average.
    pub closed spec fn value_spec(&self) -> u64 {
        self.value
    }

    /// Returns the number of prices the average is taken over.
    pub fn period(&self) -> (r: usize)
        ensures
            r == self.period_spec(),
    {
        self.period
    }

    /// Returns the current average.
    pub fn value(&self) -> (r: u64)
        ensures
            r == self.value_spec(),
    {
        self.value
    }

    /// The prices in the window, newest first.
    pub closed spec fn window(&self) -> Seq<u64> {
        self.window@
    }

    /// The average is consistent with its window.
    pub closed spec fn wf(&self) -> bool {
        &&& self.period > 0
        &&& self.window@.len() <= self.period
    }

    /// An empty average over `period` prices.
    pub fn new(period: usize) -> (r: Self)
        requires
            period > 0,
        ensures
            r.wf(),
            r.period_spec() == period,
            r.value_spec() == 0,
            r.window() == Seq::<u64>::empty(),
    {
        MovingAverage { period, value: 0, window: Vec::new() }
    }

    /// Whether the window holds `period` prices.
    pub fn is_ready(&self) -> (r: bool)
        requires
            self.wf(),
        ensures
            r == (self.window().len() == self.period_spec()),
    {
        self.window.len() == self.period
    }

    /// Takes in the price of an observation: it becomes the newest in the
    /// window, the oldest leaves once there are more than `period`, and the
    /// value is recomputed.
    pub fn update(&mut self, market_data: MarketData)
        requires
            old(self).wf(),
        ensures
            final(self).wf(),
            final(self).period_spec() == old(self).period_spec(),
            final(self).window() == (if old(self).window().len() < old(self).period_spec() {
                seq![price_of(market_data)] + old(self).window()
            } else {
                (seq![price_of(market_data)] + old(self).window()).take(old(self).period_spec() as int)
            }),
            final(self).value_spec() == sum_of(final(self).window()) / (old(self).period_spec() as int),
    {
        let current_price = match market_data {
            MarketData::Bar(bar) => bar.close,
            MarketData::Tick(tick) => tick.price,
        };
        let ghost w0 = self.window@;
        self.window.insert(0, current_price);
        assert(self.window@ =~= seq![current_price] + w0);
        if self.window.len() > self.period {
            self.window.truncate(self.period);
            assert(self.window@ =~= (seq![current_price] + w0).take(self.period as int));
        }
        let n = self.window.len();
        let mut sum: u128 = 0;
        let mut i: usize = 0;
        while i < n
            invariant
                n == self.window@.len(),
                0 <= i <= n,
                sum == sum_of(self.window@.take(i as int)),
                sum <= i * 0xffff_ffff_ffff_ffff,
                n <= usize::MAX,
            decreases n - i,
        {
            proof {
                assert(self.window@.take(i + 1).drop_last() =~= self.window@.take(i as int));
                assert(i * 0xffff_ffff_ffff_ffff + 0xffff_ffff_ffff_ffff <= 0xffff_ffff_ffff_ffff_ffff_ffff_ffff_ffff)
                    by (nonlinear_arith)
                    requires
                        i < usize::MAX,
                        usize::MAX <= 0xffff_ffff_ffff_ffff,
                ;
            }
            sum = sum + self.window[i] as u128;
            i = i + 1;
        }
        proof {
            assert(self.window@.take(n as int) =~= self.window@);
            let total = sum as int;
            let p = self.period as int;
            assert(total <= (n as int) * 0xffff_ffff_ffff_ffff);
            assert(total / p <= 0xffff_ffff_ffff_ffff) by (nonlinear_arith)
                requires
                    0 < n <= p,
                    0 <= total <= (n as int) * 0xffff_ffff_ffff_ffff,
            ;
        }
        self.value = (sum / self.period as u128) as u64;
    }
}

} // verus!
