//! That an order which must trade is priced through the book, and on the right
//! side of it.
use crate::assoc::lookup;
use crate::board::EngineView;
use crate::closing::lemma_read_is_proper;
use crate::decide::{decision, writes, DecideRefusal, Exit, Lot, Plan, Quote};
use crate::decimal::{fraction_of, total};
use crate::exit::{heal_plan, HealPlan};
use crate::closing::CloseRefusal;
use crate::fees::FeeSchedule;
use crate::hedge::{cross_price, CrossRefusal};
use crate::ladder::{legal, rung_at};
use crate::money::{
    law_four_decimals_are_read_back, lemma_nearest, lemma_nearest_exact, nearest, Px, CENT, ONE,
};
use crate::order::Order;
use crate::pricing::{micro, proper, quantized};
use crate::ratio::{dollars, less_by};
use crate::venue::{Direction, Shape};
use vstd::prelude::*;

verus! {

/// Whether `y` is `step` millionths of a dollar more than `x`, to the nearest
/// ten-thousandth of a dollar.
pub open spec fn more_by(x: (int, int), y: (int, int), step: int) -> bool {
    &&& (step - 50) * (x.1 * y.1) <= 1_000_000 * (y.0 * x.1 - x.0 * y.1)
    &&& 1_000_000 * (y.0 * x.1 - x.0 * y.1) <= (step + 50) * (x.1 * y.1)
}

/// Whether `y` is less than `x` by `step` millionths of a dollar, to the nearest
/// ten-thousandth of a dollar.
pub open spec fn less_than_by(x: (int, int), y: (int, int), step: int) -> bool {
    more_by(y, x, step)
}

/// Whether two prices are no more than some millionths of a dollar apart.
pub open spec fn off_by_at_most(x: (int, int), y: (int, int), n: int) -> bool {
    &&& 1_000_000 * (y.0 * x.1 - x.0 * y.1) <= n * (x.1 * y.1)
    &&& 1_000_000 * (x.0 * y.1 - y.0 * x.1) <= n * (x.1 * y.1)
}

/// Whether a price is no more than a trillion dollars.
pub open spec fn countable(x: (int, int)) -> bool {
    -(1_000_000_000_000 * x.1) <= x.0 <= 1_000_000_000_000 * x.1
}

/// A price that is rounded for the wire is off by half a ten-thousandth at most.
proof fn lemma_quantized_is_near(x: (int, int))
    requires
        proper(x),
        -(1_100_000_000_000 * x.1) <= x.0 <= 1_100_000_000_000 * x.1,
    ensures
        quantized(x) % 100 == 0,
        2 * (quantized(x) * x.1 - 1_000_000 * x.0) <= 100 * x.1,
        2 * (1_000_000 * x.0 - quantized(x) * x.1) <= 100 * x.1,
        -20_000_000_000_000_000_000 < -1_200_000_000_000_000_000 <= quantized(x)
            <= 1_200_000_000_000_000_000,
{
    let (a, b) = (x.0 * 10_000, x.1);
    lemma_nearest(a, b);
    let n = nearest(a, b);
    assert(n <= 11_000_000_000_000_001) by (nonlinear_arith)
        requires
            2 * (n * b - a) <= b,
            a <= 11_000_000_000_000_000 * b,
            b > 0,
    ;
    assert(n >= -11_000_000_000_000_001) by (nonlinear_arith)
        requires
            2 * (a - n * b) <= b,
            a >= -11_000_000_000_000_000 * b,
            b > 0,
    ;
    let q = quantized(x);
    assert(q == n * 100);
    assert(q * b == 100 * (n * b)) by (nonlinear_arith)
        requires
            q == n * 100,
    ;
}

/// A price one step over another, rounded for the wire, is a step more than it.
proof fn lemma_over(t: (int, int), step: int)
    requires
        proper(t),
        countable(t),
        0 <= step <= 200_000_000,
    ensures
        ({
            let q = quantized(total(t, dollars(step)));
            &&& more_by(t, (q / 100, 10_000), step)
            &&& q % 100 == 0
            &&& i64::MIN < q < i64::MAX
        }),
{
    let x = total(t, dollars(step));
    let (t0, t1) = (t.0, t.1);
    assert(x == (t0 * 1_000_000 + step * t1, t1 * 1_000_000));
    assert(0 <= step * t1 <= 200_000_000 * t1) by (nonlinear_arith)
        requires
            0 <= step <= 200_000_000,
            t1 > 0,
    ;
    lemma_quantized_is_near(x);
    let q = quantized(x);
    let n = q / 100;
    assert(q == 100 * n);
    assert(q * (t1 * 1_000_000) == 100_000_000 * (n * t1)) by (nonlinear_arith)
        requires
            q == 100 * n,
    ;
    let (y0, y1) = (n, 10_000int);
    assert(y0 * t1 == n * t1);
    assert((step - 50) * (t1 * 10_000) == 10_000 * (step * t1) - 500_000 * t1) by (nonlinear_arith);
    assert((step + 50) * (t1 * 10_000) == 10_000 * (step * t1) + 500_000 * t1) by (nonlinear_arith);
}

/// A price one step under another, rounded for the wire, is a step less than it.
proof fn lemma_under(t: (int, int), step: int)
    requires
        proper(t),
        countable(t),
        0 <= step <= 200_000_000,
    ensures
        ({
            let q = quantized(less_by(t, dollars(step)));
            &&& less_than_by(t, (q / 100, 10_000), step)
            &&& q % 100 == 0
            &&& i64::MIN < q < i64::MAX
        }),
{
    let x = less_by(t, dollars(step));
    let (t0, t1) = (t.0, t.1);
    assert(x == (t0 * 1_000_000 - step * t1, t1 * 1_000_000));
    assert(0 <= step * t1 <= 200_000_000 * t1) by (nonlinear_arith)
        requires
            0 <= step <= 200_000_000,
            t1 > 0,
    ;
    lemma_quantized_is_near(x);
    let q = quantized(x);
    let n = q / 100;
    assert(q == 100 * n);
    assert(q * (t1 * 1_000_000) == 100_000_000 * (n * t1)) by (nonlinear_arith)
        requires
            q == 100 * n,
    ;
    assert((step - 50) * (10_000 * t1) == 10_000 * (step * t1) - 500_000 * t1) by (nonlinear_arith);
    assert((step + 50) * (10_000 * t1) == 10_000 * (step * t1) + 500_000 * t1) by (nonlinear_arith);
}

/// The same step, of a price in millionths rather than in ten-thousandths.
proof fn lemma_in_millionths(x: (int, int), p: int, step: int)
    requires
        p % 100 == 0,
    ensures
        more_by(x, (p / 100, 10_000), step) == more_by(x, (p, 1_000_000), step),
        less_than_by(x, (p / 100, 10_000), step) == less_than_by(x, (p, 1_000_000), step),
{
    let n = p / 100;
    let (x0, x1) = (x.0, x.1);
    let (k, h) = (step - 50, step + 50);
    assert(p == 100 * n);
    assert(p * x1 == 100 * (n * x1)) by (nonlinear_arith)
        requires
            p == 100 * n,
    ;
    assert(k * (x1 * 1_000_000) == 100 * (k * (x1 * 10_000))) by (nonlinear_arith);
    assert(h * (x1 * 1_000_000) == 100 * (h * (x1 * 10_000))) by (nonlinear_arith);
    assert(k * (1_000_000 * x1) == 100 * (k * (10_000 * x1))) by (nonlinear_arith);
    assert(h * (1_000_000 * x1) == 100 * (h * (10_000 * x1))) by (nonlinear_arith);
}

/// What a limit in millionths reads as, once it is written for the wire.
proof fn lemma_wired(q: int)
    requires
        q % 100 == 0,
    ensures
        fraction_of(crate::money::four_decimals(nearest(q, 100))) == Some((q / 100, 10_000int)),
{
    lemma_nearest_exact(q / 100, 100);
    assert((q / 100) * 100 == q);
    law_four_decimals_are_read_back(q / 100);
}

/// The limit of a planned cross is marketable where its first leg trades: a PM-US
/// purchase is priced a cent over the PM-US ask, and a Kalshi sale a cent under
/// the Kalshi bid, as the order carries it to the wire.
pub proof fn law_a_cross_is_marketable(
    fees: FeeSchedule,
    k_lot: Lot,
    pm_lot: Lot,
    inflight_clear: bool,
    cand: Exit,
    pm_market: Seq<char>,
    quote: Quote,
    view: EngineView,
    claims: Seq<(String, i64)>,
    now: u64,
    take_ok: bool,
    p: Plan,
    o: Order,
)
    requires
        decision(
            fees,
            Ok(k_lot),
            Ok(pm_lot),
            inflight_clear,
            cand,
            pm_market,
            quote,
            view,
            claims,
            now,
            take_ok,
        ) == Ok::<Plan, DecideRefusal>(p),
        writes(o, p, k_lot, pm_lot, cand, pm_market, quote, view),
        o.cross is Some,
        lookup(view.pm_ask@, pm_market) matches Some(t) && fraction_of(t@) matches Some(a)
            ==> countable(a),
        quote.yes_bid matches Some(t) && fraction_of(t@) matches Some(b) ==> countable(b),
    ensures
        fraction_of(o.cross->0.limit@) is Some,
        o.shape == Shape::RestPmUs ==> (lookup(view.pm_ask@, pm_market) matches Some(t)
            && fraction_of(t@) matches Some(ask) && more_by(
            ask,
            fraction_of(o.cross->0.limit@)->0,
            10_000,
        )),
        o.shape == Shape::RestKalshi ==> (quote.yes_bid matches Some(t) && fraction_of(
            t@,
        ) matches Some(bid) && less_than_by(bid, fraction_of(o.cross->0.limit@)->0, 10_000)),
        take_ok,
{
    let c = p.cross->0;
    let ask = fraction_of(lookup(view.pm_ask@, pm_market)->0@)->0;
    let bid = fraction_of(quote.yes_bid->0@)->0;
    lemma_read_is_proper(lookup(view.pm_ask@, pm_market)->0@);
    lemma_read_is_proper(quote.yes_bid->0@);
    lemma_over(ask, CENT as int);
    lemma_under(bid, CENT as int);
    lemma_wired(c.limit as int);
}

/// A close that is forced past its window is marketable: where it buys, on PM-US,
/// it is priced a cent over the ask, and where it sells, on Kalshi, a cent under
/// the bid.
pub proof fn law_a_forced_close_is_marketable(
    fees: FeeSchedule,
    o: Order,
    filled: i64,
    attempts: u32,
    net: Option<i64>,
    ledger_qty: Option<i64>,
    view: EngineView,
    owed: i64,
    price: Px,
    why: CloseRefusal,
)
    requires
        heal_plan(fees, o, filled, attempts, net, ledger_qty, view) == (HealPlan::Send {
            owed,
            price,
            forced: Some(why),
        }),
        lookup(view.pm_ask@, o.pm_market@) matches Some(t) && fraction_of(t@) matches Some(a)
            ==> countable(a),
        lookup(view.k_bid@, o.market@) matches Some(t) && fraction_of(t@) matches Some(b)
            ==> countable(b),
    ensures
        o.shape == Shape::RestKalshi ==> (lookup(view.pm_ask@, o.pm_market@) matches Some(t)
            && fraction_of(t@) matches Some(ask) && more_by(
            ask,
            (price as int, 1_000_000),
            10_000,
        )),
        o.shape == Shape::RestPmUs ==> (lookup(view.k_bid@, o.market@) matches Some(t)
            && fraction_of(t@) matches Some(bid) && less_than_by(
            bid,
            (price as int, 1_000_000),
            10_000,
        )),
{
    let text = match o.shape {
        Shape::RestKalshi => lookup(view.pm_ask@, o.pm_market@),
        Shape::RestPmUs => lookup(view.k_bid@, o.market@),
    };
    let t = fraction_of(text->0@)->0;
    lemma_read_is_proper(text->0@);
    lemma_over(t, CENT as int);
    lemma_under(t, CENT as int);
    lemma_in_millionths(t, price as int, CENT as int);
}

/// The touch that the hedge of an order must trade through, and whether it sells
/// there: a standard basket is short on PM-US and long on Kalshi, and an inverse
/// one the other way round, and the hedge is the leg that did not rest.
pub open spec fn far_quote(o: Order, view: EngineView) -> (Option<String>, bool) {
    match (o.shape, o.direction) {
        (Shape::RestKalshi, Direction::Standard) => (lookup(view.pm_ask@, o.pm_market@), false),
        (Shape::RestKalshi, Direction::Inverse) => (lookup(view.pm_bid@, o.pm_market@), true),
        (Shape::RestPmUs, Direction::Standard) => (lookup(view.k_bid@, o.market@), true),
        (Shape::RestPmUs, Direction::Inverse) => (lookup(view.k_ask@, o.market@), false),
    }
}

/// A hedge that is crossed out is marketable: it is priced one step through the
/// touch of the leg that did not rest, over the ask where it buys and under the
/// bid where it sells. The step is the cent on PM-US, and on Kalshi that of the
/// rung on which the touch stands, or the cent where no ladder is known.
pub proof fn law_a_hedge_crosses_through_the_touch(o: Order, view: EngineView, p: Px)
    requires
        cross_price(o, view) == Ok::<Px, CrossRefusal>(p),
        far_quote(o, view).0 matches Some(t) && fraction_of(t@) matches Some(x) ==> countable(x),
    ensures
        far_quote(o, view).0 matches Some(t) && fraction_of(t@) matches Some(x) && ({
            let step = match (o.shape, lookup(view.k_ladder@, o.market@)) {
                (Shape::RestPmUs, Some(l)) => rung_at(legal(l@), micro(x).0, micro(x).1)->0.step
                    as int,
                _ => 10_000int,
            };
            if far_quote(o, view).1 {
                less_than_by(x, (p as int, 1_000_000), step)
            } else {
                more_by(x, (p as int, 1_000_000), step)
            }
        }),
        0 <= p <= 1_000_000,
{
    let text = far_quote(o, view).0;
    let x = fraction_of(text->0@)->0;
    lemma_read_is_proper(text->0@);
    let step = match (o.shape, lookup(view.k_ladder@, o.market@)) {
        (Shape::RestPmUs, Some(l)) => {
            crate::ladder::lemma_rung_at(legal(l@), micro(x).0, micro(x).1);
            rung_at(legal(l@), micro(x).0, micro(x).1)->0.step as int
        },
        _ => 10_000int,
    };
    lemma_over(x, step);
    lemma_under(x, step);
    let past = if far_quote(o, view).1 {
        less_by(x, dollars(step))
    } else {
        total(x, dollars(step))
    };
    let (x1, one) = (x.1, ONE as int);
    assert(x1 * one > 0);
    crate::pricing::lemma_quantized_in_range(past);
    lemma_in_millionths(x, p as int, step);
}

} // verus!
