use vstd::arithmetic::div_mod::{
    lemma_div_denominator, lemma_div_multiples_vanish_quotient,
    lemma_fundamental_div_mod, lemma_fundamental_div_mod_converse_div, lemma_hoist_over_denominator,
    lemma_mod_pos_bound,
};
use vstd::prelude::*;

use crate::types::{signed_qty, OrderSide, Trade, TradeView};

verus! {

/// The absolute value of `x`.
pub open spec fn abs(x: int) -> int {
    if x < 0 {
        -x
    } else {
        x
    }
}

/// The accounting of a trade is consistent with its weighted entry sum `w`:
/// a flat trade carries no sum, an open one has its entry price equal to
/// `w / |size|` (rounded down), and `|size|` fits a signed 64-bit integer.
pub open spec fn book_ok(t: TradeView, w: int) -> bool {
    &&& -0x7fff_ffff_ffff_ffff <= t.size <= 0x7fff_ffff_ffff_ffff
    &&& 0 <= t.entry_price < 0x1_0000_0000_0000_0000
    &&& 0 <= w < 0x1_0000_0000_0000_0000_0000_0000_0000_0000
    &&& t.size == 0 ==> w == 0
    &&& t.size != 0 ==> w / abs(t.size) == t.entry_price && t.exit_price is None
}

/// Whether a fill of `size` at `price` on `side` keeps the trade's numbers
/// representable: the net quantity within a signed 64-bit integer and the
/// weighted sum within an unsigned 128-bit integer.
pub open spec fn netting_fits(t: TradeView, w: int, side: OrderSide, size: int, price: int) -> bool {
    let q = t.size;
    let sq = signed_qty(side, size);
    if q == 0 {
        size <= 0x7fff_ffff_ffff_ffff
    } else if (q > 0) == (sq > 0) {
        abs(q) + size <= 0x7fff_ffff_ffff_ffff && w + price * size < 0x1_0000_0000_0000_0000_0000_0000_0000_0000
    } else {
        size - abs(q) <= 0x7fff_ffff_ffff_ffff
    }
}

/// The trade and weighted entry sum after a fill of `size > 0` units at
/// `price` on `side`, recorded as fill `fill_id` when `count` fills exist.
///
/// A flat trade opens at the fill's price. A fill in the trade's direction
/// scales in: quantities add, and the entry price becomes the weighted sum
/// over the quantity. A fill against it first closes up to the open quantity:
/// any surplus reopens the same trade the other way at the fill's price; a
/// partial close keeps the weighted sum's share of what is left (rounded
/// down); an exact close flattens the trade and records the exit.
pub open spec fn net_fill(
    t: TradeView,
    w: int,
    side: OrderSide,
    size: int,
    price: int,
    fill_id: usize,
    count: usize,
) -> (TradeView, int) {
    let q = t.size;
    let sq = signed_qty(side, size);
    let t = TradeView { fills: t.fills.push(fill_id), ..t };
    if q == 0 {
        (TradeView { size: sq, entry_price: price, exit_price: None, exit_index: None, ..t }, price * size)
    } else if (q > 0) == (sq > 0) {
        let nq = q + sq;
        let nw = w + price * size;
        (TradeView { size: nq, entry_price: nw / abs(nq), exit_price: None, exit_index: None, ..t }, nw)
    } else if size > abs(q) {
        let surplus = size - abs(q);
        (
            TradeView {
                size: signed_qty(side, surplus),
                entry_price: price,
                exit_price: None,
                exit_index: None,
                ..t
            },
            price * surplus,
        )
    } else if size < abs(q) {
        let m = abs(q) - size;
        let nw = w * m / abs(q);
        (TradeView { size: q + sq, entry_price: nw / m, exit_price: None, exit_index: None, ..t }, nw)
    } else {
        (TradeView { size: 0, exit_price: Some(price), exit_index: Some(count), ..t }, 0)
    }
}

/// The product of two 64-bit values fits in 128 bits.
pub proof fn lemma_mul_u64(a: int, b: int)
    requires
        0 <= a < 0x1_0000_0000_0000_0000,
        0 <= b < 0x1_0000_0000_0000_0000,
    ensures
        0 <= a * b < 0x1_0000_0000_0000_0000_0000_0000_0000_0000,
{
    assert(0 <= a * b <= 0xffff_ffff_ffff_ffff * 0xffff_ffff_ffff_ffff) by (nonlinear_arith)
        requires
            0 <= a < 0x1_0000_0000_0000_0000,
            0 <= b < 0x1_0000_0000_0000_0000,
    ;
}

/// `(p * s) / s == p` for a positive `s`.
proof fn lemma_div_of_product(p: int, s: int)
    requires
        0 <= p,
        0 < s,
    ensures
        (p * s) / s == p,
{
    lemma_fundamental_div_mod_converse_div(p * s, s, p, 0);
}

/// Scaling a weighted sum `w` held for `n` units down to `m` units:
/// `w * m / n` splits as `(w / n) * m + (w % n) * m / n`, stays within `w`,
/// and keeps the rounded-down average `w / n`.
pub proof fn lemma_scale_down(w: int, n: int, m: int)
    requires
        0 <= w,
        0 < m < n,
    ensures
        w * m / n == (w / n) * m + ((w % n) * m) / n,
        (w / n) * m <= w,
        0 <= (w % n) * m < n * m,
        0 <= w * m / n <= w,
        (w * m / n) / m == w / n,
{
    let a = w / n;
    let r = w % n;
    lemma_fundamental_div_mod(w, n);
    lemma_mod_pos_bound(w, n);
    assert(a >= 0) by (nonlinear_arith)
        requires
            w == n * a + r,
            0 <= w,
            0 <= r < n,
    ;
    assert(w * m == r * m + (a * m) * n) by (nonlinear_arith)
        requires
            w == n * a + r,
    ;
    lemma_hoist_over_denominator(r * m, a * m, n as nat);
    assert(a * m <= w) by (nonlinear_arith)
        requires
            w == n * a + r,
            0 <= r,
            0 <= a,
            0 < m < n,
    ;
    assert(0 <= r * m < n * m) by (nonlinear_arith)
        requires
            0 <= r < n,
            0 < m,
    ;
    assert(r * m / n <= r) by {
        assert(r * m <= r * n) by (nonlinear_arith)
            requires
                0 <= r,
                0 < m < n,
        ;
        lemma_div_of_product(r, n);
        vstd::arithmetic::div_mod::lemma_div_is_ordered(r * m, r * n, n);
        assert(r * n == n * r) by (nonlinear_arith);
    }
    assert(0 <= r * m / n) by {
        vstd::arithmetic::div_mod::lemma_div_pos_is_pos(r * m, n);
    }
    assert(w * m / n <= w) by (nonlinear_arith)
        requires
            w * m / n == a * m + r * m / n,
            r * m / n <= r,
            w == n * a + r,
            0 <= a,
            0 < m < n,
    ;
    lemma_div_denominator(w * m, n, m);
    assert(w * m == m * w && n * m == m * n) by (nonlinear_arith);
    lemma_div_multiples_vanish_quotient(m, w, n);
}

/// Adding `s` units at `price` to `n` units whose weighted sum averages below
/// 2^64 keeps the new average below 2^64.
proof fn lemma_scale_in_bound(w: int, n: int, price: int, s: int)
    requires
        0 <= w,
        0 < n,
        0 < s,
        0 <= price < 0x1_0000_0000_0000_0000,
        w / n < 0x1_0000_0000_0000_0000,
    ensures
        0 <= (w + price * s) / (n + s) < 0x1_0000_0000_0000_0000,
{
    let k: int = 0x1_0000_0000_0000_0000;
    lemma_fundamental_div_mod(w, n);
    lemma_mod_pos_bound(w, n);
    assert(w < k * n) by (nonlinear_arith)
        requires
            w == n * (w / n) + w % n,
            w % n < n,
            w / n < k,
            0 < n,
    ;
    assert(price * s < k * s) by (nonlinear_arith)
        requires
            0 <= price < k,
            0 < s,
    ;
    let nw = w + price * s;
    assert(0 <= price * s) by (nonlinear_arith)
        requires
            0 <= price,
            0 < s,
    ;
    vstd::arithmetic::div_mod::lemma_div_pos_is_pos(nw, n + s);
    lemma_fundamental_div_mod(nw, n + s);
    lemma_mod_pos_bound(nw, n + s);
    assert(nw / (n + s) < k) by (nonlinear_arith)
        requires
            nw == (n + s) * (nw / (n + s)) + nw % (n + s),
            0 <= nw % (n + s),
            nw < k * n + k * s,
            0 < n + s,
    ;
}

/// A fill that fits keeps the accounting consistent and the trade's id,
/// instrument, strategy and entry index.
pub proof fn lemma_net_fill_ok(
    t: TradeView,
    w: int,
    side: OrderSide,
    size: int,
    price: int,
    fill_id: usize,
    count: usize,
)
    requires
        size > 0,
        0 <= price < 0x1_0000_0000_0000_0000,
        book_ok(t, w),
        netting_fits(t, w, side, size, price),
    ensures
        book_ok(net_fill(t, w, side, size, price, fill_id, count).0, net_fill(t, w, side, size, price, fill_id, count).1),
        net_fill(t, w, side, size, price, fill_id, count).0.id == t.id,
        net_fill(t, w, side, size, price, fill_id, count).0.instrument == t.instrument,
        net_fill(t, w, side, size, price, fill_id, count).0.strategy_id == t.strategy_id,
        net_fill(t, w, side, size, price, fill_id, count).0.entry_index == t.entry_index,
        net_fill(t, w, side, size, price, fill_id, count).0.fills == t.fills.push(fill_id),
{
    let q = t.size;
    let sq = signed_qty(side, size);
    if q == 0 {
        lemma_mul_u64(price, size);
        lemma_div_of_product(price, size);
    } else if (q > 0) == (sq > 0) {
        lemma_mul_u64(price, size);
        lemma_scale_in_bound(w, abs(q), price, size);
    } else if size > abs(q) {
        lemma_mul_u64(price, size - abs(q));
        lemma_div_of_product(price, size - abs(q));
    } else if size < abs(q) {
        lemma_scale_down(w, abs(q), abs(q) - size);
    }
}

/// Applies one fill to a trade and its weighted entry sum, as [`net_fill`] says.
pub fn apply_fill(
    trade: &mut Trade,
    weighted: &mut u128,
    fill_id: usize,
    side: OrderSide,
    size: u64,
    price: u64,
    count: usize,
)
    requires
        size > 0,
        book_ok(old(trade)@, *old(weighted) as int),
        netting_fits(old(trade)@, *old(weighted) as int, side, size as int, price as int),
    ensures
        (final(trade)@, *final(weighted) as int) == net_fill(
            old(trade)@,
            *old(weighted) as int,
            side,
            size as int,
            price as int,
            fill_id,
            count,
        ),
        book_ok(final(trade)@, *final(weighted) as int),
{
    trade.fills.push(fill_id);
    let q = trade.size;
    let buy = match side {
        OrderSide::Buy => true,
        OrderSide::Sell => false,
    };
    if q == 0 {
        proof {
            lemma_mul_u64(price as int, size as int);
            lemma_div_of_product(price as int, size as int);
        }
        trade.size = if buy { size as i64 } else { -(size as i64) };
        trade.entry_price = price;
        trade.exit_price = None;
        trade.exit_index = None;
        *weighted = price as u128 * size as u128;
    } else if (q > 0) == buy {
        let n: u64 = if q > 0 { q as u64 } else { (-q) as u64 };
        proof {
            lemma_mul_u64(price as int, size as int);
            lemma_scale_in_bound(*weighted as int, n as int, price as int, size as int);
        }
        let total: u64 = n + size;
        let nw: u128 = *weighted + price as u128 * size as u128;
        trade.size = if buy { total as i64 } else { -(total as i64) };
        trade.entry_price = (nw / total as u128) as u64;
        trade.exit_price = None;
        trade.exit_index = None;
        *weighted = nw;
    } else {
        let n: u64 = if q > 0 { q as u64 } else { (-q) as u64 };
        if size > n {
            let surplus: u64 = size - n;
            proof {
                lemma_mul_u64(price as int, surplus as int);
                lemma_div_of_product(price as int, surplus as int);
            }
            trade.size = if buy { surplus as i64 } else { -(surplus as i64) };
            trade.entry_price = price;
            trade.exit_price = None;
            trade.exit_index = None;
            *weighted = price as u128 * surplus as u128;
        } else if size < n {
            let m: u64 = n - size;
            let w: u128 = *weighted;
            proof {
                lemma_scale_down(w as int, n as int, m as int);
                lemma_mul_u64(n as int, m as int);
            }
            let nw: u128 = (w / n as u128) * m as u128 + (w % n as u128) * m as u128 / n as u128;
            trade.size = if buy { q + size as i64 } else { q - size as i64 };
            trade.entry_price = (nw / m as u128) as u64;
            trade.exit_price = None;
            trade.exit_index = None;
            *weighted = nw;
        } else {
            trade.size = 0;
            trade.exit_price = Some(price);
            trade.exit_index = Some(count);
            *weighted = 0;
        }
    }
}

} // verus!
