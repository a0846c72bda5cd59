use vstd::prelude::*;

use crate::data::{available_of, high_of, low_of, market_price_of, min2, MarketData};
use crate::execution::{fill_price, fill_price_of, is_triggered, triggers};
use crate::netting::{abs, apply_fill, book_ok, net_fill, netting_fits};
use crate::types::{Account, Fill, Instrument, Order, OrderSide, Trade, TradeView};

verus! {

/// The state of a broker as mathematical values. Orders, fills and trades sit
/// at the index one below their id; `weights[i]` is the weighted entry sum of
/// `trades[i]`; `order_trade[i]` is the trade that the order with id `i + 1`
/// last filled into; `pending` lists the ids of the orders still waiting, in
/// placement order.
pub struct BrokerModel {
    pub orders: Seq<Order>,
    pub pending: Seq<usize>,
    pub fills: Seq<Fill>,
    pub trades: Seq<TradeView>,
    pub weights: Seq<int>,
    pub order_trade: Seq<Option<usize>>,
    pub instruments: Seq<Instrument>,
}

/// Ids run from 1 in storage order, every reference by id names a stored
/// item, and the accounting of every trade is consistent.
pub open spec fn model_wf(s: BrokerModel) -> bool {
    &&& s.orders.len() == s.order_trade.len()
    &&& s.trades.len() == s.weights.len()
    &&& forall|i: int| 0 <= i < s.orders.len() ==> #[trigger] s.orders[i].id == Some((i + 1) as usize)
    &&& forall|i: int| 0 <= i < s.fills.len() ==> #[trigger] s.fills[i].id == i + 1
    &&& forall|i: int|
        0 <= i < s.trades.len() ==> (#[trigger] s.trades[i]).id == i + 1 && book_ok(s.trades[i], s.weights[i])
    &&& forall|i: int| 0 <= i < s.pending.len() ==> 1 <= #[trigger] s.pending[i] <= s.orders.len()
    &&& forall|i: int|
        0 <= i < s.order_trade.len() ==> (#[trigger] s.order_trade[i] matches Some(t) ==> 1 <= t
            <= s.trades.len())
    &&& forall|i: int| 0 <= i < s.instruments.len() ==> #[trigger] s.instruments[i].id == Some((i + 1) as u32)
}

/// The trade that a fill of order `oid` goes to, if it exists yet: the
/// order's related trade when that trade exists, else the trade the order
/// last filled into.
pub open spec fn route(s: BrokerModel, o: Order, oid: usize) -> Option<usize> {
    if o.related_id is Some && 1 <= o.related_id->0 <= s.trades.len() {
        o.related_id
    } else {
        s.order_trade[oid - 1]
    }
}

/// A new, flat trade for order `o`, opened by fill number `count`.
pub open spec fn fresh_trade(id: usize, o: Order, count: usize) -> TradeView {
    TradeView {
        id,
        instrument: o.instrument,
        strategy_id: o.strategy_id,
        fills: Seq::empty(),
        size: 0,
        entry_price: 0,
        entry_index: count,
        exit_price: None,
        exit_index: None,
    }
}

/// One pending order `oid` meets an observation that has `avail` units left
/// and traded between `low` and `high` at market price `market`. Gives the
/// new state, the units left, and whether the order stays pending.
///
/// An order that does not trigger, that meets no units, or whose fill could
/// not be numbered or accounted for in machine integers, is left as it is.
/// Otherwise it fills `min(size, avail)` units at its fill price: the fill is
/// recorded, the trade it routes to (or a new one) is netted, the order's
/// remaining size shrinks, and the order stays pending while any is left.
pub open spec fn order_step(s: BrokerModel, oid: usize, avail: int, low: int, high: int, market: int) -> (
    BrokerModel,
    int,
    bool,
) {
    let o = s.orders[oid - 1];
    let fs = min2(o.size as int, avail);
    let existing = route(s, o, oid);
    let tid: usize = match existing {
        Some(t) => t,
        None => (s.trades.len() + 1) as usize,
    };
    let fid: usize = (s.fills.len() + 1) as usize;
    let t0 = match existing {
        Some(t) => s.trades[t - 1],
        None => fresh_trade(tid, o, fid),
    };
    let w0 = match existing {
        Some(t) => s.weights[t - 1],
        None => 0,
    };
    let price = fill_price_of(o.order_type, o.side, low, high, market);
    if !triggers(o.order_type, o.side, low, high) || fs <= 0 {
        (s, avail, true)
    } else if s.fills.len() >= usize::MAX || s.trades.len() >= usize::MAX || !netting_fits(
        t0,
        w0,
        o.side,
        fs,
        price,
    ) {
        (s, avail, true)
    } else {
        let (t1, w1) = net_fill(t0, w0, o.side, fs, price, fid, fid);
        let fill = Fill {
            id: fid,
            instrument: o.instrument,
            strategy_id: o.strategy_id,
            order_id: oid,
            side: o.side,
            size: fs as u64,
            price: price as u64,
        };
        let trades = match existing {
            Some(t) => s.trades.update(t - 1, t1),
            None => s.trades.push(t1),
        };
        let weights = match existing {
            Some(t) => s.weights.update(t - 1, w1),
            None => s.weights.push(w1),
        };
        let left = o.size - fs;
        (
            BrokerModel {
                orders: s.orders.update(oid - 1, Order { size: left as u64, ..o }),
                fills: s.fills.push(fill),
                trades,
                weights,
                order_trade: s.order_trade.update(oid - 1, Some(tid)),
                ..s
            },
            avail - fs,
            left > 0,
        )
    }
}

/// Walks the queue `q` in order against one observation, starting with
/// `avail` units: gives the state, the ids that stay pending (in order), and
/// the units left.
pub open spec fn queue_walk(s: BrokerModel, q: Seq<usize>, avail: int, low: int, high: int, market: int) -> (
    BrokerModel,
    Seq<usize>,
    int,
)
    decreases q.len(),
{
    if q.len() == 0 {
        (s, Seq::empty(), avail)
    } else {
        let (s1, kept, a1) = queue_walk(s, q.drop_last(), avail, low, high, market);
        let (s2, a2, keep) = order_step(s1, q.last(), a1, low, high, market);
        (
            s2,
            if keep {
                kept.push(q.last())
            } else {
                kept
            },
            a2,
        )
    }
}

/// The state after one observation: with no units available nothing
/// changes; otherwise the pending queue is walked once, in order.
pub open spec fn simulate(s: BrokerModel, d: MarketData) -> BrokerModel {
    if available_of(d) <= 0 {
        s
    } else {
        let (s1, kept, _) = queue_walk(s, s.pending, available_of(d), low_of(d), high_of(d), market_price_of(d));
        BrokerModel { pending: kept, ..s1 }
    }
}

/// A broker state with nothing in it.
pub open spec fn empty_model() -> BrokerModel {
    BrokerModel {
        orders: Seq::empty(),
        pending: Seq::empty(),
        fills: Seq::empty(),
        trades: Seq::empty(),
        weights: Seq::empty(),
        order_trade: Seq::empty(),
        instruments: Seq::empty(),
    }
}

/// The state after accepting the order `o` (which already carries its id):
/// it is stored, queued, and linked to no trade yet.
pub open spec fn placed(s: BrokerModel, o: Order) -> BrokerModel {
    BrokerModel {
        orders: s.orders.push(o),
        pending: s.pending.push(o.id->0),
        order_trade: s.order_trade.push(None),
        ..s
    }
}

/// An order's related trade is missing or trades another instrument.
pub open spec fn related_mismatch(s: BrokerModel, o: Order) -> bool {
    match o.related_id {
        Some(t) => !(1 <= t <= s.trades.len()) || s.trades[t - 1].instrument != o.instrument,
        None => false,
    }
}

/// The trade that order `order_id` last filled into, if the order exists
/// and has filled.
pub open spec fn trade_of_order(s: BrokerModel, order_id: usize) -> Option<usize> {
    if 1 <= order_id <= s.order_trade.len() {
        s.order_trade[order_id - 1]
    } else {
        None
    }
}

/// A trade is open for a strategy in an instrument.
pub open spec fn is_open_for(t: TradeView, strategy_id: u32, instrument: u32) -> bool {
    t.strategy_id == strategy_id && t.instrument == instrument && t.size != 0
}

/// The signed sum of the sizes of the open trades of `strategy_id` in `instrument`.
pub open spec fn position_of(ts: Seq<TradeView>, strategy_id: u32, instrument: u32) -> int
    decreases ts.len(),
{
    if ts.len() == 0 {
        0
    } else {
        position_of(ts.drop_last(), strategy_id, instrument) + if is_open_for(ts.last(), strategy_id, instrument) {
            ts.last().size
        } else {
            0
        }
    }
}

/// The open trades of `strategy_id` in `instrument`, in order.
pub open spec fn open_trades_of(ts: Seq<TradeView>, strategy_id: u32, instrument: u32) -> Seq<TradeView>
    decreases ts.len(),
{
    if ts.len() == 0 {
        Seq::empty()
    } else {
        let rest = open_trades_of(ts.drop_last(), strategy_id, instrument);
        if is_open_for(ts.last(), strategy_id, instrument) {
            rest.push(ts.last())
        } else {
            rest
        }
    }
}

/// One order step keeps the state well formed.
pub proof fn lemma_order_step_wf(s: BrokerModel, oid: usize, avail: int, low: int, high: int, market: int)
    requires
        model_wf(s),
        1 <= oid <= s.orders.len(),
        0 <= low < 0x1_0000_0000_0000_0000,
        0 <= high < 0x1_0000_0000_0000_0000,
        0 <= market < 0x1_0000_0000_0000_0000,
    ensures
        model_wf(order_step(s, oid, avail, low, high, market).0),
{
    let o = s.orders[oid - 1];
    let fs = min2(o.size as int, avail);
    let existing = route(s, o, oid);
    let fid: usize = (s.fills.len() + 1) as usize;
    let price = fill_price_of(o.order_type, o.side, low, high, market);
    let s2 = order_step(s, oid, avail, low, high, market).0;
    assert(0 <= price < 0x1_0000_0000_0000_0000);
    if triggers(o.order_type, o.side, low, high) && fs > 0 && s.fills.len() < usize::MAX
        && s.trades.len() < usize::MAX && s2 != s {
        match existing {
            Some(t) => {
                assert(1 <= t <= s.trades.len());
                let (t1, w1) = net_fill(s.trades[t - 1], s.weights[t - 1], o.side, fs, price, fid, fid);
                crate::netting::lemma_net_fill_ok(s.trades[t - 1], s.weights[t - 1], o.side, fs, price, fid, fid);
                assert(t1.id == s.trades[t - 1].id);
            },
            None => {
                let tid: usize = (s.trades.len() + 1) as usize;
                crate::netting::lemma_net_fill_ok(fresh_trade(tid, o, fid), 0, o.side, fs, price, fid, fid);
            },
        }
        assert forall|i: int| 0 <= i < s2.orders.len() implies #[trigger] s2.orders[i].id == Some((i + 1) as usize) by {
            assert(s.orders[i].id == Some((i + 1) as usize));
        }
        assert forall|i: int| 0 <= i < s2.pending.len() implies 1 <= #[trigger] s2.pending[i] <= s2.orders.len() by {
            assert(1 <= s.pending[i] <= s.orders.len());
        }
        assert forall|i: int| 0 <= i < s2.order_trade.len() implies (#[trigger] s2.order_trade[i] matches Some(t) ==> 1 <= t
            <= s2.trades.len()) by {
            if i != oid - 1 {
                assert(s.order_trade[i] matches Some(t) ==> 1 <= t <= s.trades.len());
            }
        }
        assert forall|i: int| 0 <= i < s2.trades.len() implies (#[trigger] s2.trades[i]).id == i + 1 && book_ok(s2.trades[i], s2.weights[i]) by {
            if i < s.trades.len() {
                assert(s.trades[i].id == i + 1 && book_ok(s.trades[i], s.weights[i]));
            }
        }
        assert forall|i: int| 0 <= i < s2.fills.len() implies #[trigger] s2.fills[i].id == i + 1 by {
            if i < s.fills.len() {
                assert(s.fills[i].id == i + 1);
            }
        }
    }
}

/// The backtesting broker: it holds the orders, fills, trades and instruments
/// of a simulation and fills pending orders against each observation.
pub struct BacktestingBroker {
    account: Account,
    orders: Vec<Order>,
    pending: Vec<usize>,
    fills: Vec<Fill>,
    trades: Vec<Trade>,
    weights: Vec<u128>,
    order_trade: Vec<Option<usize>>,
    instruments: Vec<Instrument>,
}

impl View for BacktestingBroker {
    type V = BrokerModel;

    closed spec fn view(&self) -> BrokerModel {
        BrokerModel {
            orders: self.orders@,
            pending: self.pending@,
            fills: self.fills@,
            trades: self.trades@.map_values(|t: Trade| t@),
            weights: self.weights@.map_values(|w: u128| w as int),
            order_trade: self.order_trade@,
            instruments: self.instruments@,
        }
    }
}

impl BacktestingBroker {
    /// The broker's state is well formed.
    pub closed spec fn wf(&self) -> bool {
        &&& model_wf(self@)
        &&& self.trades@.len() == self.weights@.len()
    }

    /// Records a fill in the ledger under the next fill id and returns that id.
    fn store_fill(
        &mut self,
        instrument: u32,
        strategy_id: u32,
        order_id: usize,
        side: OrderSide,
        size: u64,
        price: u64,
    ) -> (r: usize)
        requires
            old(self).fills@.len() < usize::MAX,
        ensures
            r == old(self).fills@.len() + 1,
            final(self).fills@ == old(self).fills@.push(
                Fill { id: r, instrument, strategy_id, order_id, side, size, price },
            ),
            final(self).orders == old(self).orders,
            final(self).pending == old(self).pending,
            final(self).trades == old(self).trades,
            final(self).weights == old(self).weights,
            final(self).order_trade == old(self).order_trade,
            final(self).instruments == old(self).instruments,
            final(self).account == old(self).account,
    {
        let id: usize = self.fills.len() + 1;
        self.fills.push(Fill { id, instrument, strategy_id, order_id, side, size, price });
        id
    }

    /// Handles one pending order, as [`order_step`] says.
    fn process_order(&mut self, oid: usize, avail: u64, low: u64, high: u64, market: u64) -> (r: (
        u64,
        bool,
    ))
        requires
            old(self).wf(),
            1 <= oid <= old(self)@.orders.len(),
        ensures
            final(self).wf(),
            (final(self)@, r.0 as int, r.1) == order_step(
                old(self)@,
                oid,
                avail as int,
                low as int,
                high as int,
                market as int,
            ),
    {
        let ghost s = self@;
        let o = self.orders[oid - 1];
        if !is_triggered(o.order_type, o.side, low, high) {
            return (avail, true);
        }
        let fs: u64 = if o.size <= avail {
            o.size
        } else {
            avail
        };
        if fs == 0 {
            return (avail, true);
        }
        if self.fills.len() == usize::MAX || self.trades.len() == usize::MAX {
            return (avail, true);
        }
        let existing: Option<usize> = match o.related_id {
            Some(r) => if 1 <= r && r <= self.trades.len() {
                Some(r)
            } else {
                self.order_trade[oid - 1]
            },
            None => self.order_trade[oid - 1],
        };
        assert(existing == route(s, o, oid));
        let fid: usize = self.fills.len() + 1;
        let price = fill_price(o.order_type, o.side, low, high, market);
        let tid: usize = match existing {
            Some(t) => {
                assert(s.trades[t - 1] == self.trades@[t - 1]@);
                assert(s.weights[t - 1] == self.weights@[t - 1] as int);
                if !fits(&self.trades[t - 1], self.weights[t - 1], o.side, fs, price) {
                    return (avail, true);
                }
                apply_fill(&mut self.trades[t - 1], &mut self.weights[t - 1], fid, o.side, fs, price, fid);
                t
            },
            None => {
                let tid: usize = self.trades.len() + 1;
                let mut t = Trade {
                    id: tid,
                    instrument: o.instrument,
                    strategy_id: o.strategy_id,
                    fills: Vec::new(),
                    size: 0,
                    entry_price: 0,
                    entry_index: fid,
                    exit_price: None,
                    exit_index: None,
                };
                assert(t@ =~= fresh_trade(tid, o, fid));
                let mut w: u128 = 0;
                if !fits(&t, w, o.side, fs, price) {
                    return (avail, true);
                }
                apply_fill(&mut t, &mut w, fid, o.side, fs, price, fid);
                self.trades.push(t);
                self.weights.push(w);
                tid
            },
        };
        let stored = self.store_fill(o.instrument, o.strategy_id, oid, o.side, fs, price);
        assert(stored == fid);
        let left: u64 = o.size - fs;
        self.orders.set(oid - 1, Order { size: left, ..o });
        self.order_trade.set(oid - 1, Some(tid));
        proof {
            let (s2, a2, keep) = order_step(s, oid, avail as int, low as int, high as int, market as int);
            assert(self@.trades =~= s2.trades);
            assert(self@.weights =~= s2.weights);
            assert(self@.orders =~= s2.orders);
            assert(self@.fills =~= s2.fills);
            assert(self@.order_trade =~= s2.order_trade);
            assert(self@ == s2);
            lemma_order_step_wf(s, oid, avail as int, low as int, high as int, market as int);
        }
        (avail - fs, left > 0)
    }

    /// A broker with no orders, fills, trades or instruments.
    pub fn new(starting_balance: i64) -> (r: Self)
        ensures
            r.wf(),
            r@ == empty_model(),
            r.balance() == starting_balance,
    {
        let r = BacktestingBroker {
            account: Account { id: String::from_str("BACKTEST"), balance: starting_balance },
            orders: Vec::new(),
            pending: Vec::new(),
            fills: Vec::new(),
            trades: Vec::new(),
            weights: Vec::new(),
            order_trade: Vec::new(),
            instruments: Vec::new(),
        };
        assert(r@.trades =~= Seq::empty());
        assert(r@.weights =~= Seq::empty());
        r
    }

    /// The balance of the broker's account.
    pub closed spec fn balance(&self) -> i64 {
        self.account.balance
    }

    /// Returns the balance of the broker's account.
    pub fn account_balance(&self) -> (r: i64)
        ensures
            r == self.balance(),
    {
        self.account.balance
    }

    /// Accepts an order: gives it the next id, stores it and appends it to the
    /// pending queue. Returns the stored order.
    pub fn place_order(&mut self, order: Order) -> (r: Order)
        requires
            old(self).wf(),
            old(self)@.orders.len() < usize::MAX,
        ensures
            final(self).wf(),
            r == (Order { id: Some((old(self)@.orders.len() + 1) as usize), ..order }),
            final(self)@ == placed(old(self)@, r),
    {
        let id: usize = self.orders.len() + 1;
        let stored = Order { id: Some(id), ..order };
        self.orders.push(stored);
        self.pending.push(id);
        self.order_trade.push(None);
        proof {
            let s = self@;
            assert forall|i: int| 0 <= i < s.orders.len() implies #[trigger] s.orders[i].id == Some((i + 1) as usize) by {
                if i < s.orders.len() - 1 {
                    assert(old(self)@.orders[i] == s.orders[i]);
                }
            }
            assert forall|i: int| 0 <= i < s.pending.len() implies 1 <= #[trigger] s.pending[i] <= s.orders.len() by {
                if i < s.pending.len() - 1 {
                    assert(old(self)@.pending[i] == s.pending[i]);
                }
            }
            assert forall|i: int| 0 <= i < s.order_trade.len() implies (#[trigger] s.order_trade[i] matches Some(t) ==> 1 <= t
                <= s.trades.len()) by {
                if i < s.order_trade.len() - 1 {
                    assert(old(self)@.order_trade[i] == s.order_trade[i]);
                }
            }
        }
        stored
    }

    /// Whether an order names a related trade that does not exist or that
    /// trades another instrument. Such an order is still accepted; the link
    /// is advisory.
    pub fn related_trade_mismatch(&self, order: &Order) -> (r: bool)
        requires
            self.wf(),
        ensures
            r == related_mismatch(self@, *order),
    {
        match order.related_id {
            Some(t) => {
                if 1 <= t && t <= self.trades.len() {
                    assert(self@.trades[t - 1] == self.trades@[t - 1]@);
                    self.trades[t - 1].instrument != order.instrument
                } else {
                    true
                }
            },
            None => false,
        }
    }

    /// Registers an instrument under the next instrument id and returns the
    /// stored instrument.
    pub fn add_instrument(&mut self, instrument: Instrument) -> (r: &Instrument)
        requires
            old(self).wf(),
            old(self)@.instruments.len() < u32::MAX,
        ensures
            final(self).wf(),
            *r == (Instrument { id: Some((old(self)@.instruments.len() + 1) as u32), ..instrument }),
            final(self)@ == (BrokerModel { instruments: old(self)@.instruments.push(*r), ..old(self)@ }),
    {
        let id: u32 = self.instruments.len() as u32 + 1;
        self.instruments.push(Instrument { id: Some(id), ..instrument });
        proof {
            let s = self@;
            assert forall|i: int| 0 <= i < s.instruments.len() implies #[trigger] s.instruments[i].id == Some((i + 1) as u32) by {
                if i < s.instruments.len() - 1 {
                    assert(old(self)@.instruments[i] == s.instruments[i]);
                }
            }
        }
        &self.instruments[self.instruments.len() - 1]
    }

    /// Places each order in turn, as [`Self::place_order`] does.
    pub fn place_orders(&mut self, orders: Vec<Order>)
        requires
            old(self).wf(),
            old(self)@.orders.len() + orders@.len() < usize::MAX,
        ensures
            final(self).wf(),
            final(self)@.orders.len() == old(self)@.orders.len() + orders@.len(),
            forall|i: int|
                0 <= i < orders@.len() ==> #[trigger] final(self)@.orders[old(self)@.orders.len() + i] == (Order {
                    id: Some((old(self)@.orders.len() + i + 1) as usize),
                    ..orders@[i]
                }),
            final(self)@.orders.take(old(self)@.orders.len() as int) == old(self)@.orders,
            final(self)@.pending.len() == old(self)@.pending.len() + orders@.len(),
            final(self)@.pending.take(old(self)@.pending.len() as int) == old(self)@.pending,
            final(self)@.fills == old(self)@.fills,
            final(self)@.trades == old(self)@.trades,
    {
        let ghost s0 = self@;
        let n = orders.len();
        let mut i: usize = 0;
        while i < n
            invariant
                self.wf(),
                n == orders@.len(),
                0 <= i <= n,
                s0.orders.len() + n < usize::MAX,
                self@.orders.len() == s0.orders.len() + i,
                forall|j: int|
                    0 <= j < i ==> #[trigger] self@.orders[s0.orders.len() + j] == (Order {
                        id: Some((s0.orders.len() + j + 1) as usize),
                        ..orders@[j]
                    }),
                self@.orders.take(s0.orders.len() as int) == s0.orders,
                self@.pending.len() == s0.pending.len() + i,
                self@.pending.take(s0.pending.len() as int) == s0.pending,
                self@.fills == s0.fills,
                self@.trades == s0.trades,
            decreases n - i,
        {
            let ghost before = self@;
            self.place_order(orders[i]);
            proof {
                assert(self@.orders.take(s0.orders.len() as int) =~= before.orders.take(s0.orders.len() as int));
                assert(self@.pending.take(s0.pending.len() as int) =~= before.pending.take(s0.pending.len() as int));
                assert forall|j: int| 0 <= j < i + 1 implies #[trigger] self@.orders[s0.orders.len() + j] == (Order {
                        id: Some((s0.orders.len() + j + 1) as usize),
                        ..orders@[j]
                    }) by {
                    if j < i {
                        assert(self@.orders[s0.orders.len() + j] == before.orders[s0.orders.len() + j]);
                    }
                }
            }
            i = i + 1;
        }
    }

    /// Fills pending orders against one observation, as [`simulate`] says.
    pub fn simulate_fills(&mut self, data: MarketData)
        requires
            old(self).wf(),
        ensures
            final(self).wf(),
            final(self)@ == simulate(old(self)@, data),
    {
        let (avail, low, high) = data.liquidity_and_range();
        if avail == 0 {
            return;
        }
        let market = data.market_price();
        let ghost s0 = self@;
        let mut kept: Vec<usize> = Vec::new();
        let mut left: u64 = avail;
        let n: usize = self.pending.len();
        let mut i: usize = 0;
        assert(s0.pending.take(0) =~= Seq::<usize>::empty());
        while i < n
            invariant
                self.wf(),
                0 <= i <= n,
                n == s0.pending.len(),
                self@.pending == s0.pending,
                self@.orders.len() == s0.orders.len(),
                model_wf(s0),
                queue_walk(s0, s0.pending.take(i as int), avail as int, low as int, high as int, market as int)
                    == (self@, kept@, left as int),
                forall|j: int| 0 <= j < kept@.len() ==> 1 <= #[trigger] kept@[j] <= s0.orders.len(),
            decreases n - i,
        {
            let oid = self.pending[i];
            proof {
                assert(s0.pending.take(i + 1).drop_last() =~= s0.pending.take(i as int));
                assert(s0.pending.take(i + 1).last() == oid);
                assert(1 <= s0.pending[i as int] <= s0.orders.len());
            }
            let (l2, keep) = self.process_order(oid, left, low, high, market);
            if keep {
                kept.push(oid);
            }
            left = l2;
            i = i + 1;
        }
        proof {
            assert(s0.pending.take(n as int) =~= s0.pending);
        }
        self.pending = kept;
        proof {
            let s = self@;
            assert forall|i: int| 0 <= i < s.pending.len() implies 1 <= #[trigger] s.pending[i] <= s.orders.len() by {
                assert(1 <= kept@[i] <= s0.orders.len());
            }
        }
    }

    /// The number of orders accepted so far.
    pub fn orders_len(&self) -> (r: usize)
        ensures
            r == self@.orders.len(),
    {
        self.orders.len()
    }

    /// The number of orders still waiting to be filled.
    pub fn unfilled_orders_len(&self) -> (r: usize)
        ensures
            r == self@.pending.len(),
    {
        self.pending.len()
    }

    /// The stored order with this id, if any.
    pub fn get_order(&self, order_id: usize) -> (r: Option<&Order>)
        ensures
            match r {
                Some(o) => 1 <= order_id <= self@.orders.len() && *o == self@.orders[order_id - 1],
                None => !(1 <= order_id <= self@.orders.len()),
            },
    {
        if 1 <= order_id && order_id <= self.orders.len() {
            Some(&self.orders[order_id - 1])
        } else {
            None
        }
    }

    /// The fill with this id, if any.
    pub fn get_fill(&self, fill_id: usize) -> (r: Option<&Fill>)
        ensures
            match r {
                Some(f) => 1 <= fill_id <= self@.fills.len() && *f == self@.fills[fill_id - 1],
                None => !(1 <= fill_id <= self@.fills.len()),
            },
    {
        if 1 <= fill_id && fill_id <= self.fills.len() {
            Some(&self.fills[fill_id - 1])
        } else {
            None
        }
    }

    /// The trade with this id, if any.
    pub fn get_trade(&self, trade_id: usize) -> (r: Option<&Trade>)
        ensures
            match r {
                Some(t) => 1 <= trade_id <= self@.trades.len() && t@ == self@.trades[trade_id - 1],
                None => !(1 <= trade_id <= self@.trades.len()),
            },
    {
        if 1 <= trade_id && trade_id <= self.trades.len() {
            Some(&self.trades[trade_id - 1])
        } else {
            None
        }
    }

    /// The trade that the order with this id last filled into, if any.
    pub fn get_trade_for_order(&self, order_id: usize) -> (r: Option<&Trade>)
        requires
            self.wf(),
        ensures
            match r {
                Some(t) => trade_of_order(self@, order_id) matches Some(tid) && t@ == self@.trades[tid - 1],
                None => trade_of_order(self@, order_id) is None,
            },
    {
        if 1 <= order_id && order_id <= self.order_trade.len() {
            match self.order_trade[order_id - 1] {
                Some(tid) => {
                    assert(1 <= tid <= self@.trades.len());
                    Some(&self.trades[tid - 1])
                },
                None => None,
            }
        } else {
            None
        }
    }

    /// The signed sum of the sizes of the open trades of a strategy in an
    /// instrument: long and short trades net against each other.
    pub fn get_current_position(&self, strategy_id: u32, instrument: u32) -> (r: i128)
        requires
            self.wf(),
        ensures
            r == position_of(self@.trades, strategy_id, instrument),
    {
        let n = self.trades.len();
        let mut sum: i128 = 0;
        let mut i: usize = 0;
        while i < n
            invariant
                self.wf(),
                n == self@.trades.len(),
                0 <= i <= n,
                sum == position_of(self@.trades.take(i as int), strategy_id, instrument),
                -(i as int) * 0x8000_0000_0000_0000 <= sum <= (i as int) * 0x8000_0000_0000_0000,
            decreases n - i,
        {
            let t = &self.trades[i];
            proof {
                let ts = self@.trades;
                assert(ts.take(i + 1).drop_last() =~= ts.take(i as int));
                assert(ts.take(i + 1).last() == t@);
                assert((#[trigger] ts[i as int]).id == i + 1 && book_ok(ts[i as int], self@.weights[i as int]));
                assert(i < 0x1_0000_0000_0000_0000);
                assert((i as int + 1) * 0x8000_0000_0000_0000 <= 0x8000_0000_0000_0000_0000_0000_0000_0000);
            }
            if t.strategy_id == strategy_id && t.instrument == instrument && t.size != 0 {
                sum = sum + t.size as i128;
            }
            i = i + 1;
        }
        proof {
            assert(self@.trades.take(n as int) =~= self@.trades);
        }
        sum
    }

    /// The open trades of a strategy in an instrument, in the order they were created.
    pub fn get_open_trades(&self, strategy_id: u32, instrument: u32) -> (r: Vec<&Trade>)
        ensures
            r@.len() == open_trades_of(self@.trades, strategy_id, instrument).len(),
            forall|j: int|
                0 <= j < r@.len() ==> (#[trigger] r@[j])@ == open_trades_of(self@.trades, strategy_id, instrument)[j],
    {
        let n = self.trades.len();
        let mut out: Vec<&Trade> = Vec::new();
        let mut i: usize = 0;
        while i < n
            invariant
                n == self@.trades.len(),
                0 <= i <= n,
                out@.len() == open_trades_of(self@.trades.take(i as int), strategy_id, instrument).len(),
                forall|j: int|
                    0 <= j < out@.len() ==> (#[trigger] out@[j])@ == open_trades_of(
                        self@.trades.take(i as int),
                        strategy_id,
                        instrument,
                    )[j],
            decreases n - i,
        {
            let t = &self.trades[i];
            proof {
                let ts = self@.trades;
                assert(ts.take(i + 1).drop_last() =~= ts.take(i as int));
                assert(ts.take(i + 1).last() == t@);
            }
            if t.strategy_id == strategy_id && t.instrument == instrument && t.size != 0 {
                out.push(t);
            }
            i = i + 1;
        }
        proof {
            assert(self@.trades.take(n as int) =~= self@.trades);
        }
        out
    }
}

/// Decides [`netting_fits`] for a trade and its weighted entry sum.
fn fits(trade: &Trade, weighted: u128, side: OrderSide, size: u64, price: u64) -> (r: bool)
    requires
        size > 0,
        book_ok(trade@, weighted as int),
    ensures
        r == netting_fits(trade@, weighted as int, side, size as int, price as int),
{
    let q = trade.size;
    let buy = match side {
        OrderSide::Buy => true,
        OrderSide::Sell => false,
    };
    let limit: u64 = 0x7fff_ffff_ffff_ffff;
    if q == 0 {
        size <= limit
    } else {
        let n: u64 = if q > 0 {
            q as u64
        } else {
            (-q) as u64
        };
        if (q > 0) == buy {
            proof {
                crate::netting::lemma_mul_u64(price as int, size as int);
            }
            size <= limit - n && weighted.checked_add(price as u128 * size as u128).is_some()
        } else {
            size <= n || size - n <= limit
        }
    }
}

} // verus!
