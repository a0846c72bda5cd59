use vstd::prelude::*;

use crate::broker::{
    empty_model, placed, fresh_trade, lemma_order_step_wf, model_wf, order_step, queue_walk, route, simulate, trade_of_order,
    BrokerModel,
};
use crate::data::{available_of, high_of, low_of, market_price_of, min2, MarketData};
use crate::execution::{fill_price_of, triggers};
use crate::netting::{abs, book_ok, net_fill};
use crate::types::{signed_qty, Order, OrderSide, OrderType, TradeView};

verus! {

/// With a single order pending, one observation is one step of that order.
pub proof fn lemma_single_pending(s: BrokerModel, oid: usize, d: MarketData)
    requires
        s.pending == seq![oid],
    ensures
        simulate(s, d) == (if available_of(d) <= 0 {
            s
        } else {
            let (s1, _, keep) = order_step(s, oid, available_of(d), low_of(d), high_of(d), market_price_of(d));
            BrokerModel {
                pending: if keep {
                    seq![oid]
                } else {
                    Seq::empty()
                },
                ..s1
            }
        }),
{
    let q = s.pending;
    let e: Seq<usize> = Seq::empty();
    assert(q.drop_last() =~= e);
    assert(q.last() == oid);
    assert(e.push(oid) =~= seq![oid]);
    if available_of(d) > 0 {
        let (lo, hi, mk) = (low_of(d), high_of(d), market_price_of(d));
        assert(queue_walk(s, e, available_of(d), lo, hi, mk) == (s, e, available_of(d)));
        assert(queue_walk(s, q, available_of(d), lo, hi, mk) == queue_walk(s, seq![oid], available_of(d), lo, hi, mk));
    }
}

/// An observation that offers no quantity changes no order, fill or trade:
/// the state stays exactly as it was.
pub proof fn lemma_no_liquidity_no_change(s: BrokerModel, d: MarketData)
    requires
        available_of(d) <= 0,
    ensures
        simulate(s, d) == s,
{
}

/// The only pending order, not yet linked to any trade, triggers and meets
/// enough quantity: it fills completely into a new trade that is open at the
/// order's fill price with the order's signed size, and leaves the queue.
pub proof fn lemma_fresh_order_fills(s: BrokerModel, oid: usize, d: MarketData)
    requires
        model_wf(s),
        s.pending == seq![oid],
        1 <= oid <= s.orders.len(),
        route(s, s.orders[oid - 1], oid) is None,
        triggers(s.orders[oid - 1].order_type, s.orders[oid - 1].side, low_of(d), high_of(d)),
        0 < s.orders[oid - 1].size <= available_of(d),
        s.orders[oid - 1].size <= 0x7fff_ffff_ffff_ffff,
        s.fills.len() < usize::MAX,
        s.trades.len() < usize::MAX,
    ensures
        ({
            let o = s.orders[oid - 1];
            let s2 = simulate(s, d);
            let tid = (s.trades.len() + 1) as usize;
            &&& trade_of_order(s2, oid) == Some(tid)
            &&& s2.trades.len() == tid
            &&& s2.trades[tid - 1].entry_price == fill_price_of(
                o.order_type,
                o.side,
                low_of(d),
                high_of(d),
                market_price_of(d),
            )
            &&& s2.trades[tid - 1].size == signed_qty(o.side, o.size as int)
            &&& s2.trades[tid - 1].exit_price is None
            &&& s2.orders[oid - 1].size == 0
            &&& s2.pending.len() == 0
        }),
{
    lemma_single_pending(s, oid, d);
    let o = s.orders[oid - 1];
    let fid = (s.fills.len() + 1) as usize;
    let tid = (s.trades.len() + 1) as usize;
    let t0 = fresh_trade(tid, o, fid);
    assert(t0.size == 0);
}

/// A market order alone in the queue with enough quantity against it fills
/// completely at the observation's market price: a tick's price or a bar's open.
pub proof fn lemma_market_order_fills_at_market(s: BrokerModel, oid: usize, d: MarketData)
    requires
        model_wf(s),
        s.pending == seq![oid],
        1 <= oid <= s.orders.len(),
        s.orders[oid - 1].order_type == OrderType::Market,
        route(s, s.orders[oid - 1], oid) is None,
        0 < s.orders[oid - 1].size <= available_of(d),
        s.orders[oid - 1].size <= 0x7fff_ffff_ffff_ffff,
        s.fills.len() < usize::MAX,
        s.trades.len() < usize::MAX,
    ensures
        ({
            let o = s.orders[oid - 1];
            let s2 = simulate(s, d);
            let tid = (s.trades.len() + 1) as usize;
            &&& trade_of_order(s2, oid) == Some(tid)
            &&& s2.trades[tid - 1].entry_price == market_price_of(d)
            &&& s2.trades[tid - 1].size == signed_qty(o.side, o.size as int)
        }),
{
    lemma_fresh_order_fills(s, oid, d);
}

/// An order that does not trigger against an observation leaves the state
/// as it was when it is the only one pending.
pub proof fn lemma_untriggered_order_waits(s: BrokerModel, oid: usize, d: MarketData)
    requires
        s.pending == seq![oid],
        1 <= oid <= s.orders.len(),
        !triggers(s.orders[oid - 1].order_type, s.orders[oid - 1].side, low_of(d), high_of(d)),
    ensures
        simulate(s, d) == s,
{
    lemma_single_pending(s, oid, d);
}

/// A buy limit does not trigger while the market trades only above its limit,
/// and a triggered one executes no higher than its limit; a sell limit the
/// other way round.
pub proof fn lemma_limit_price_bound(l: u64, side: OrderSide, low: int, high: int, market: int)
    requires
        low <= high,
    ensures
        side == OrderSide::Buy && low > l ==> !triggers(OrderType::Limit(l), side, low, high),
        side == OrderSide::Sell && high < l ==> !triggers(OrderType::Limit(l), side, low, high),
        side == OrderSide::Buy && triggers(OrderType::Limit(l), side, low, high) ==> fill_price_of(
            OrderType::Limit(l),
            side,
            low,
            high,
            market,
        ) <= l,
        side == OrderSide::Sell && triggers(OrderType::Limit(l), side, low, high) ==> fill_price_of(
            OrderType::Limit(l),
            side,
            low,
            high,
            market,
        ) >= l,
{
}

/// A buy stop does not trigger while the market trades only below its stop,
/// and a triggered one executes no lower than its stop; a sell stop the other
/// way round.
pub proof fn lemma_stop_price_bound(st: u64, side: OrderSide, low: int, high: int, market: int)
    requires
        low <= high,
    ensures
        side == OrderSide::Buy && high < st ==> !triggers(OrderType::Stop(st), side, low, high),
        side == OrderSide::Sell && low > st ==> !triggers(OrderType::Stop(st), side, low, high),
        side == OrderSide::Buy && triggers(OrderType::Stop(st), side, low, high) ==> fill_price_of(
            OrderType::Stop(st),
            side,
            low,
            high,
            market,
        ) >= st,
        side == OrderSide::Sell && triggers(OrderType::Stop(st), side, low, high) ==> fill_price_of(
            OrderType::Stop(st),
            side,
            low,
            high,
            market,
        ) <= st,
{
}

/// A buy stop-limit does not trigger before the market reaches its stop, nor
/// while it trades only above its limit; once triggered it executes between
/// its stop and its limit. A sell stop-limit mirrors this.
pub proof fn lemma_stop_limit_price_bound(st: u64, l: u64, side: OrderSide, low: int, high: int, market: int)
    requires
        low <= high,
    ensures
        side == OrderSide::Buy && high < st ==> !triggers(OrderType::StopLimit(st, l), side, low, high),
        side == OrderSide::Buy && low > l ==> !triggers(OrderType::StopLimit(st, l), side, low, high),
        side == OrderSide::Sell && low > st ==> !triggers(OrderType::StopLimit(st, l), side, low, high),
        side == OrderSide::Sell && high < l ==> !triggers(OrderType::StopLimit(st, l), side, low, high),
        side == OrderSide::Buy && st <= l && triggers(OrderType::StopLimit(st, l), side, low, high) ==> {
            let p = fill_price_of(OrderType::StopLimit(st, l), side, low, high, market);
            st <= p <= l
        },
        side == OrderSide::Sell && l <= st && triggers(OrderType::StopLimit(st, l), side, low, high) ==> {
            let p = fill_price_of(OrderType::StopLimit(st, l), side, low, high, market);
            l <= p <= st
        },
{
}

/// Two fills in one direction on a flat trade leave the size-weighted
/// average of their prices, rounded down, as the entry price, and their
/// summed quantity as the size.
pub proof fn lemma_weighted_average(
    t: TradeView,
    w: int,
    side: OrderSide,
    size1: int,
    price1: int,
    size2: int,
    price2: int,
    f1: usize,
    f2: usize,
)
    requires
        book_ok(t, w),
        t.size == 0,
        size1 > 0,
        size2 > 0,
        0 <= price1,
        0 <= price2,
    ensures
        ({
            let (t1, w1) = net_fill(t, w, side, size1, price1, f1, f1);
            let (t2, w2) = net_fill(t1, w1, side, size2, price2, f2, f2);
            &&& t2.entry_price == (size1 * price1 + size2 * price2) / (size1 + size2)
            &&& t2.size == signed_qty(side, size1 + size2)
            &&& t2.exit_price is None
        }),
{
    assert(price1 * size1 == size1 * price1 && price2 * size2 == size2 * price2) by (nonlinear_arith);
}

/// A fill against an open trade that is smaller than the trade reduces its
/// size by the fill and keeps its entry price; the trade stays open.
pub proof fn lemma_partial_close_keeps_entry(
    t: TradeView,
    w: int,
    side: OrderSide,
    size: int,
    price: int,
    fill_id: usize,
    count: usize,
)
    requires
        book_ok(t, w),
        t.size != 0,
        (t.size > 0) != (signed_qty(side, size) > 0),
        0 < size < abs(t.size),
    ensures
        ({
            let (t1, w1) = net_fill(t, w, side, size, price, fill_id, count);
            &&& t1.entry_price == t.entry_price
            &&& t1.size == t.size + signed_qty(side, size)
            &&& t1.exit_price is None
            &&& book_ok(t1, w1)
        }),
{
    crate::netting::lemma_net_fill_ok(t, w, side, size, 0, fill_id, count);
    let m = abs(t.size) - size;
    crate::netting::lemma_scale_down(w, abs(t.size), m);
}

/// A fill against an open trade of exactly its size closes it: the size
/// becomes zero, the exit is recorded at the fill's price and position, and
/// the entry price stays.
pub proof fn lemma_exact_close(
    t: TradeView,
    w: int,
    side: OrderSide,
    size: int,
    price: int,
    fill_id: usize,
    count: usize,
)
    requires
        book_ok(t, w),
        t.size != 0,
        (t.size > 0) != (signed_qty(side, size) > 0),
        size == abs(t.size),
    ensures
        ({
            let (t1, w1) = net_fill(t, w, side, size, price, fill_id, count);
            &&& t1.size == 0
            &&& t1.exit_price == Some(price)
            &&& t1.exit_index == Some(count)
            &&& t1.entry_price == t.entry_price
            &&& w1 == 0
        }),
{
}

/// The lowest traded price of an observation is at most its highest.
pub proof fn lemma_low_below_high(d: MarketData)
    ensures
        low_of(d) <= high_of(d),
{
}

/// When the only pending order, not yet linked to a trade, triggers and
/// fills completely into a new trade, that trade's entry price respects the
/// order's prices: no higher than a buy limit, no lower than a buy stop,
/// between the stop and the limit of a buy stop-limit, and the mirror for
/// sells.
pub proof fn lemma_fresh_fill_respects_order_prices(s: BrokerModel, oid: usize, d: MarketData)
    requires
        model_wf(s),
        s.pending == seq![oid],
        1 <= oid <= s.orders.len(),
        route(s, s.orders[oid - 1], oid) is None,
        triggers(s.orders[oid - 1].order_type, s.orders[oid - 1].side, low_of(d), high_of(d)),
        0 < s.orders[oid - 1].size <= available_of(d),
        s.orders[oid - 1].size <= 0x7fff_ffff_ffff_ffff,
        s.fills.len() < usize::MAX,
        s.trades.len() < usize::MAX,
    ensures
        ({
            let o = s.orders[oid - 1];
            let tid = (s.trades.len() + 1) as usize;
            let e = simulate(s, d).trades[tid - 1].entry_price;
            &&& trade_of_order(simulate(s, d), oid) == Some(tid)
            &&& o.order_type matches OrderType::Limit(l) ==> (o.side == OrderSide::Buy ==> e <= l) && (o.side
                == OrderSide::Sell ==> e >= l)
            &&& o.order_type matches OrderType::Stop(st) ==> (o.side == OrderSide::Buy ==> e >= st) && (o.side
                == OrderSide::Sell ==> e <= st)
            &&& o.order_type matches OrderType::StopLimit(st, l) ==> (o.side == OrderSide::Buy && st <= l ==> st
                <= e <= l) && (o.side == OrderSide::Sell && l <= st ==> l <= e <= st)
        }),
{
    let o = s.orders[oid - 1];
    lemma_fresh_order_fills(s, oid, d);
    lemma_low_below_high(d);
    let (lo, hi, mk) = (low_of(d), high_of(d), market_price_of(d));
    match o.order_type {
        OrderType::Limit(l) => lemma_limit_price_bound(l, o.side, lo, hi, mk),
        OrderType::Stop(st) => lemma_stop_price_bound(st, o.side, lo, hi, mk),
        OrderType::StopLimit(st, l) => lemma_stop_limit_price_bound(st, l, o.side, lo, hi, mk),
        OrderType::Market => {},
    }
}

/// What one step may change of the history: orders keep their ids and only
/// shrink, recorded fills stay as they were, trades are only added, and the
/// state stays well formed.
pub open spec fn history_kept(s: BrokerModel, s2: BrokerModel) -> bool {
    &&& model_wf(s2)
    &&& s2.orders.len() == s.orders.len()
    &&& forall|i: int|
        0 <= i < s.orders.len() ==> (#[trigger] s2.orders[i]).size <= s.orders[i].size && s2.orders[i].id
            == s.orders[i].id
    &&& s2.fills.len() >= s.fills.len()
    &&& forall|i: int| 0 <= i < s.fills.len() ==> #[trigger] s2.fills[i] == s.fills[i]
    &&& s2.trades.len() >= s.trades.len()
}

proof fn lemma_history_kept_trans(s: BrokerModel, s1: BrokerModel, s2: BrokerModel)
    requires
        history_kept(s, s1),
        history_kept(s1, s2),
    ensures
        history_kept(s, s2),
{
    assert forall|i: int| 0 <= i < s.orders.len() implies (#[trigger] s2.orders[i]).size <= s.orders[i].size
        && s2.orders[i].id == s.orders[i].id by {
        assert(s1.orders[i].size <= s.orders[i].size);
    }
    assert forall|i: int| 0 <= i < s.fills.len() implies #[trigger] s2.fills[i] == s.fills[i] by {
        assert(s1.fills[i] == s.fills[i]);
    }
}

proof fn lemma_walk_keeps_history(s: BrokerModel, q: Seq<usize>, avail: int, low: int, high: int, market: int)
    requires
        model_wf(s),
        forall|i: int| 0 <= i < q.len() ==> 1 <= #[trigger] q[i] <= s.orders.len(),
        0 <= low < 0x1_0000_0000_0000_0000,
        0 <= high < 0x1_0000_0000_0000_0000,
        0 <= market < 0x1_0000_0000_0000_0000,
    ensures
        history_kept(s, queue_walk(s, q, avail, low, high, market).0),
        queue_walk(s, q, avail, low, high, market).0.pending == s.pending,
    decreases q.len(),
{
    if q.len() == 0 {
    } else {
        let p = q.drop_last();
        assert forall|i: int| 0 <= i < p.len() implies 1 <= #[trigger] p[i] <= s.orders.len() by {
            assert(p[i] == q[i]);
        }
        lemma_walk_keeps_history(s, p, avail, low, high, market);
        let (s1, _, a1) = queue_walk(s, p, avail, low, high, market);
        assert(1 <= q.last() <= s.orders.len()) by {
            assert(q.last() == q[q.len() - 1]);
        }
        lemma_order_step_wf(s1, q.last(), a1, low, high, market);
        let s2 = order_step(s1, q.last(), a1, low, high, market).0;
        assert(history_kept(s1, s2)) by {
            assert forall|i: int| 0 <= i < s1.fills.len() implies #[trigger] s2.fills[i] == s1.fills[i] by {}
        }
        lemma_history_kept_trans(s, s1, s2);
    }
}

/// One observation keeps the history: every order keeps its id and its
/// remaining size does not grow, recorded fills are unchanged, trades are
/// only added, and the broker state stays well formed.
pub proof fn lemma_simulate_keeps_history(s: BrokerModel, d: MarketData)
    requires
        model_wf(s),
    ensures
        history_kept(s, simulate(s, d)),
{
    if available_of(d) > 0 {
        assert(0 <= low_of(d) < 0x1_0000_0000_0000_0000);
        assert(0 <= high_of(d) < 0x1_0000_0000_0000_0000);
        assert forall|i: int| 0 <= i < s.pending.len() implies 1 <= #[trigger] s.pending[i] <= s.orders.len() by {}
        lemma_walk_keeps_history(s, s.pending, available_of(d), low_of(d), high_of(d), market_price_of(d));
        let (s1, kept, _) = queue_walk(s, s.pending, available_of(d), low_of(d), high_of(d), market_price_of(d));
        lemma_walk_kept_ids(s, s.pending, available_of(d), low_of(d), high_of(d), market_price_of(d));
        let s2 = simulate(s, d);
        assert forall|i: int| 0 <= i < s2.pending.len() implies 1 <= #[trigger] s2.pending[i] <= s2.orders.len() by {
            assert(1 <= kept[i] <= s.orders.len());
        }
    }
}

proof fn lemma_walk_kept_ids(s: BrokerModel, q: Seq<usize>, avail: int, low: int, high: int, market: int)
    requires
        forall|i: int| 0 <= i < q.len() ==> 1 <= #[trigger] q[i] <= s.orders.len(),
    ensures
        ({
            let kept = queue_walk(s, q, avail, low, high, market).1;
            forall|i: int| 0 <= i < kept.len() ==> 1 <= #[trigger] kept[i] <= s.orders.len()
        }),
    decreases q.len(),
{
    if q.len() > 0 {
        let p = q.drop_last();
        assert forall|i: int| 0 <= i < p.len() implies 1 <= #[trigger] p[i] <= s.orders.len() by {
            assert(p[i] == q[i]);
        }
        lemma_walk_kept_ids(s, p, avail, low, high, market);
        assert(1 <= q.last() <= s.orders.len()) by {
            assert(q.last() == q[q.len() - 1]);
        }
        let (s1, kept, a1) = queue_walk(s, p, avail, low, high, market);
        let k2 = kept.push(q.last());
        assert forall|i: int| 0 <= i < k2.len() implies 1 <= #[trigger] k2[i] <= s.orders.len() by {
            if i < kept.len() {
                assert(k2[i] == kept[i]);
            }
        }
    }
}

/// Trades list only recorded fills.
pub open spec fn fills_in_range(s: BrokerModel) -> bool {
    forall|t: int, j: int|
        0 <= t < s.trades.len() && 0 <= j < s.trades[t].fills.len() ==> 1 <= #[trigger] s.trades[t].fills[j]
            <= s.fills.len()
}

/// No fill is listed twice, in one trade or in two.
pub open spec fn fills_listed_once(s: BrokerModel) -> bool {
    forall|t1: int, j1: int, t2: int, j2: int|
        0 <= t1 < s.trades.len() && 0 <= j1 < s.trades[t1].fills.len() && 0 <= t2 < s.trades.len() && 0 <= j2
            < s.trades[t2].fills.len() && #[trigger] s.trades[t1].fills[j1] == #[trigger] s.trades[t2].fills[j2]
            ==> t1 == t2 && j1 == j2
}

/// Some trade lists fill `f`.
pub open spec fn fill_listed(s: BrokerModel, f: int) -> bool {
    exists|t: int, j: int| 0 <= t < s.trades.len() && 0 <= j < s.trades[t].fills.len() && #[trigger] s.trades[t].fills[j] == f
}

/// Every recorded fill is listed by some trade.
pub open spec fn fills_all_listed(s: BrokerModel) -> bool {
    forall|f: int| 1 <= f <= s.fills.len() ==> #[trigger] fill_listed(s, f)
}

/// Every recorded fill sits in the fill list of exactly one trade, once, and
/// trades list only recorded fills.
pub open spec fn fills_owned(s: BrokerModel) -> bool {
    &&& fills_in_range(s)
    &&& fills_listed_once(s)
    &&& fills_all_listed(s)
}

proof fn lemma_step_keeps_fills_owned(s: BrokerModel, oid: usize, avail: int, low: int, high: int, market: int)
    requires
        model_wf(s),
        fills_owned(s),
        1 <= oid <= s.orders.len(),
        0 <= low < 0x1_0000_0000_0000_0000,
        0 <= high < 0x1_0000_0000_0000_0000,
        0 <= market < 0x1_0000_0000_0000_0000,
    ensures
        fills_owned(order_step(s, oid, avail, low, high, market).0),
{
    let s2 = order_step(s, oid, avail, low, high, market).0;
    let o = s.orders[oid - 1];
    let existing = route(s, o, oid);
    let fid: usize = (s.fills.len() + 1) as usize;
    if s2 != s {
        let tix: int = match existing {
            Some(t) => t - 1,
            None => s.trades.len() as int,
        };
        let old_fills: Seq<usize> = match existing {
            Some(t) => s.trades[t - 1].fills,
            None => Seq::empty(),
        };
        let price = fill_price_of(o.order_type, o.side, low, high, market);
        let fs = min2(o.size as int, avail);
        match existing {
            Some(t) => {
                crate::netting::lemma_net_fill_ok(s.trades[t - 1], s.weights[t - 1], o.side, fs, price, fid, fid);
            },
            None => {
                crate::netting::lemma_net_fill_ok(
                    fresh_trade((s.trades.len() + 1) as usize, o, fid),
                    0,
                    o.side,
                    fs,
                    price,
                    fid,
                    fid,
                );
            },
        }
        assert(0 <= tix < s2.trades.len());
        assert(s2.trades[tix].fills == old_fills.push(fid));
        assert(s2.fills.len() == s.fills.len() + 1);
        assert forall|t: int| 0 <= t < s2.trades.len() && t != tix implies #[trigger] s2.trades[t] == s.trades[t] by {}
        assert forall|t: int, j: int|
            0 <= t < s2.trades.len() && 0 <= j < s2.trades[t].fills.len() implies 1 <= #[trigger] s2.trades[t].fills[j]
                <= s2.fills.len() by {
            if t != tix {
                assert(s2.trades[t] == s.trades[t]);
            } else if j < old_fills.len() {
                assert(s.trades[t].fills[j] == old_fills[j]);
            }
        }
        assert forall|t1: int, j1: int, t2: int, j2: int|
            0 <= t1 < s2.trades.len() && 0 <= j1 < s2.trades[t1].fills.len() && 0 <= t2 < s2.trades.len() && 0
                <= j2 < s2.trades[t2].fills.len() && #[trigger] s2.trades[t1].fills[j1]
                == #[trigger] s2.trades[t2].fills[j2] implies t1 == t2 && j1 == j2 by {
            let new1 = t1 == tix && j1 == old_fills.len();
            let new2 = t2 == tix && j2 == old_fills.len();
            if !new1 {
                if t1 != tix {
                    assert(s2.trades[t1] == s.trades[t1]);
                } else {
                    assert(s.trades[t1].fills[j1] == old_fills[j1]);
                }
                assert(1 <= s.trades[t1].fills[j1] <= s.fills.len());
            }
            if !new2 {
                if t2 != tix {
                    assert(s2.trades[t2] == s.trades[t2]);
                } else {
                    assert(s.trades[t2].fills[j2] == old_fills[j2]);
                }
                assert(1 <= s.trades[t2].fills[j2] <= s.fills.len());
            }
            if !new1 && !new2 {
                assert(s.trades[t1].fills[j1] == s.trades[t2].fills[j2]);
            }
        }
        assert forall|f: int| 1 <= f <= s2.fills.len() implies #[trigger] fill_listed(s2, f) by {
            if f == fid {
                assert(s2.trades[tix].fills[old_fills.len() as int] == f);
            } else {
                assert(fill_listed(s, f));
                let (t, j) = choose|t: int, j: int|
                    0 <= t < s.trades.len() && 0 <= j < s.trades[t].fills.len() && #[trigger] s.trades[t].fills[j] == f;
                if t != tix {
                    assert(s2.trades[t] == s.trades[t]);
                    assert(s2.trades[t].fills[j] == f);
                } else {
                    assert(s2.trades[t].fills[j] == old_fills[j]);
                }
            }
        }
    }
}

proof fn lemma_fills_owned_same(s: BrokerModel, s2: BrokerModel)
    requires
        fills_owned(s),
        s2.trades == s.trades,
        s2.fills == s.fills,
    ensures
        fills_owned(s2),
{
    assert(fills_in_range(s2));
    assert(fills_listed_once(s2));
    assert(fills_all_listed(s2)) by {
        assert forall|f: int| 1 <= f <= s2.fills.len() implies #[trigger] fill_listed(s2, f) by {
            assert(fill_listed(s, f));
        }
    }
}

proof fn lemma_walk_keeps_fills_owned(s: BrokerModel, q: Seq<usize>, avail: int, low: int, high: int, market: int)
    requires
        model_wf(s),
        fills_owned(s),
        forall|i: int| 0 <= i < q.len() ==> 1 <= #[trigger] q[i] <= s.orders.len(),
        0 <= low < 0x1_0000_0000_0000_0000,
        0 <= high < 0x1_0000_0000_0000_0000,
        0 <= market < 0x1_0000_0000_0000_0000,
    ensures
        fills_owned(queue_walk(s, q, avail, low, high, market).0),
    decreases q.len(),
{
    if q.len() > 0 {
        let p = q.drop_last();
        assert forall|i: int| 0 <= i < p.len() implies 1 <= #[trigger] p[i] <= s.orders.len() by {
            assert(p[i] == q[i]);
        }
        lemma_walk_keeps_fills_owned(s, p, avail, low, high, market);
        lemma_walk_keeps_history(s, p, avail, low, high, market);
        let (s1, _, a1) = queue_walk(s, p, avail, low, high, market);
        assert(1 <= q.last() <= s.orders.len()) by {
            assert(q.last() == q[q.len() - 1]);
        }
        lemma_step_keeps_fills_owned(s1, q.last(), a1, low, high, market);
    }
}

/// Fills stay owned by exactly one trade each across an observation; an
/// empty broker trivially has that property and accepting orders keeps it.
pub proof fn lemma_fills_owned_kept(s: BrokerModel, d: MarketData, o: Order)
    requires
        model_wf(s),
        fills_owned(s),
    ensures
        fills_owned(empty_model()),
        fills_owned(simulate(s, d)),
        fills_owned(placed(s, o)),
{
    if available_of(d) > 0 {
        assert(0 <= low_of(d) < 0x1_0000_0000_0000_0000);
        assert(0 <= high_of(d) < 0x1_0000_0000_0000_0000);
        assert forall|i: int| 0 <= i < s.pending.len() implies 1 <= #[trigger] s.pending[i] <= s.orders.len() by {}
        lemma_walk_keeps_fills_owned(s, s.pending, available_of(d), low_of(d), high_of(d), market_price_of(d));
        let s1 = queue_walk(s, s.pending, available_of(d), low_of(d), high_of(d), market_price_of(d)).0;
        lemma_fills_owned_same(s1, simulate(s, d));
    }
    lemma_fills_owned_same(s, placed(s, o));
}

/// A market order alone in the queue that fills in two parts, against two
/// observations, ends up as one trade whose entry price is the size-weighted
/// average of the two market prices (rounded down) and whose size is the
/// order's.
pub proof fn lemma_two_part_fill_averages(s: BrokerModel, oid: usize, d1: MarketData, d2: MarketData)
    requires
        model_wf(s),
        s.pending == seq![oid],
        1 <= oid <= s.orders.len(),
        s.orders[oid - 1].order_type == OrderType::Market,
        route(s, s.orders[oid - 1], oid) is None,
        0 < available_of(d1) < s.orders[oid - 1].size,
        s.orders[oid - 1].size - available_of(d1) <= available_of(d2),
        s.orders[oid - 1].size <= 0x7fff_ffff_ffff_ffff,
        s.fills.len() + 2 < usize::MAX,
        s.trades.len() + 1 < usize::MAX,
    ensures
        ({
            let o = s.orders[oid - 1];
            let a1 = available_of(d1);
            let a2 = o.size - a1;
            let s2 = simulate(simulate(s, d1), d2);
            let tid = (s.trades.len() + 1) as usize;
            &&& trade_of_order(s2, oid) == Some(tid)
            &&& s2.trades[tid - 1].entry_price == (a1 * market_price_of(d1) + a2 * market_price_of(d2)) / (a1
                + a2)
            &&& s2.trades[tid - 1].size == signed_qty(o.side, o.size as int)
            &&& s2.pending.len() == 0
        }),
{
    let o = s.orders[oid - 1];
    let a1 = available_of(d1);
    let a2 = o.size - a1;
    let (m1, m2) = (market_price_of(d1), market_price_of(d2));
    lemma_single_pending(s, oid, d1);
    let s1 = simulate(s, d1);
    let tid = (s.trades.len() + 1) as usize;
    let fid = (s.fills.len() + 1) as usize;
    assert(fresh_trade(tid, o, fid).size == 0);
    assert(s1.pending == seq![oid]);
    assert(s1.orders[oid - 1].size == a2);
    assert(s1.order_trade[oid - 1] == Some(tid));
    assert(s1.trades[tid - 1].size == signed_qty(o.side, a1));
    assert(s1.weights[tid - 1] == m1 * a1);
    lemma_order_step_wf(s, oid, a1, low_of(d1), high_of(d1), m1);
    lemma_single_pending(s1, oid, d2);
    let o1 = s1.orders[oid - 1];
    assert(o1.related_id == o.related_id);
    assert(route(s1, o1, oid) == Some(tid));
    crate::netting::lemma_mul_u64(m1, a1);
    crate::netting::lemma_mul_u64(m2, a2);
    assert(m1 * a1 <= 0xffff_ffff_ffff_ffff * 0x7fff_ffff_ffff_ffff) by (nonlinear_arith)
        requires
            0 <= m1 < 0x1_0000_0000_0000_0000,
            0 < a1 <= 0x7fff_ffff_ffff_ffff,
    ;
    assert(m2 * a2 <= 0xffff_ffff_ffff_ffff * 0x7fff_ffff_ffff_ffff) by (nonlinear_arith)
        requires
            0 <= m2 < 0x1_0000_0000_0000_0000,
            0 < a2 <= 0x7fff_ffff_ffff_ffff,
    ;
    assert(m1 * a1 == a1 * m1 && m2 * a2 == a2 * m2) by (nonlinear_arith);
}

} // verus!
