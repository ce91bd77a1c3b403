//! Where a resting order stands between the two sides of a book.
use crate::decimal::{below, total};
use crate::ladder::{ladder_ok, law_tick_ceil_is_tight, lemma_rung_at, rung_at, tick_ceil, Rung};
use crate::money::{lemma_floor_div, Px, CENT};
use crate::pricing::{
    cents_below, higher, inside_ask, inside_bid, lemma_cents_below, lower, micro, over_bid, proper,
    resting_ask, resting_bid, under_ask, PriceRefusal,
};
use crate::pricing_laws::at_most;
use crate::ratio::{less_by, FARTHEST};
use crate::spelling::{equal, lemma_rung, lemma_tick};
use vstd::prelude::*;

verus! {

/// Whether a price in millionths is one that the ladder offers.
pub open spec fn on_tick(ladder: Seq<Rung>, p: int) -> bool {
    tick_ceil(ladder, p, 1) == Some(p as i64) && i64::MIN <= p <= i64::MAX
}

/// A resting ask never stands more than one step inside the competing ask, the
/// step being that of the rung on which the competing ask stands, and it stands
/// no higher than it must: within a step of its floor, of the price one step
/// inside the competing ask, or of what clears the bid by a step.
pub proof fn law_a_resting_ask_gives_away_one_step(
    ladder: Seq<Rung>,
    floor: Px,
    bid: Option<(int, int)>,
    ask: Option<(int, int)>,
    p: Px,
)
    requires
        ladder_ok(ladder),
        bid matches Some(b) ==> proper(b),
        ask matches Some(a) ==> proper(a),
        resting_ask(ladder, floor, bid, ask) == Ok::<Px, PriceRefusal>(p),
    ensures
        ask matches Some(a) ==> (rung_at(ladder, a.0 * 1_000_000, a.1) matches Some(r) && (a.0
            * 1_000_000 > r.step * a.1 ==> p * a.1 >= a.0 * 1_000_000 - r.step * a.1)),
        bid matches Some(b) ==> rung_at(ladder, b.0 * 1_000_000, b.1) is Some && p * b.1 > b.0
            * 1_000_000,
        p >= floor,
        p < 1_000_000,
        bid is None && ask is None ==> p == floor,
        p == floor || near_floor(ladder, floor, p) || near_ask(ladder, ask, p) || near_bid(
            ladder,
            bid,
            p,
        ),
{
    let i = inside_ask(ladder, ask)->Ok_0;
    let o = over_bid(ladder, bid)->Ok_0;
    if let Some(a) = ask {
        let r = rung_at(ladder, a.0 * 1_000_000, a.1)->0;
        let s = r.step as int;
        assert(micro(a) == (a.0 * 1_000_000, a.1));
        assert(less_by(micro(a), (s, 1)) == (a.0 * 1_000_000 * 1 - s * a.1, a.1 * 1));
    }
    if let Some(b) = bid {
        assert(micro(b) == (b.0 * 1_000_000, b.1));
        let r = rung_at(ladder, b.0 * 1_000_000, b.1)->0;
        let x = total(micro(b), (r.step as int, 1));
        assert(x == (b.0 * 1_000_000 * 1 + r.step * b.1, b.1 * 1));
        law_tick_ceil_is_tight(ladder, x.0, x.1);
    }
    if let Some(t) = higher(i, o) {
        assert(proper(t));
        lemma_rested_over(ladder, floor, t, p);
        if let Some(j) = i {
            assert(at_most(j, t));
            lemma_past(j, t, p as int);
        }
        if below(t, (floor as int, 1)) {
            assert(near_floor(ladder, floor, p));
        } else if o is Some && t == (o->0 as int, 1int) {
            let b = bid->0;
            let r = rung_at(ladder, b.0 * 1_000_000, b.1)->0;
            assert(tick_ceil(ladder, b.0 * 1_000_000 + r.step * b.1, b.1) == o);
            let u = rung_at(ladder, t.0, t.1)->0;
            assert(rung_at(ladder, o->0 as int, 1) == Some(u));
            assert(u.step * t.1 == u.step && p * t.1 == p) by (nonlinear_arith)
                requires
                    t.1 == 1,
            ;
            assert(near_bid(ladder, bid, p));
        } else {
            assert(Some(t) == i);
            assert(near_ask(ladder, ask, p));
        }
    }
}

/// The price above the higher of a touch and a floor is over both, and less than
/// a step over one of them.
proof fn lemma_rested_over(ladder: Seq<Rung>, floor: Px, t: (int, int), p: Px)
    requires
        ladder_ok(ladder),
        proper(t),
        ({
            let best = if below(t, (floor as int, 1)) {
                (floor as int, 1int)
            } else {
                t
            };
            tick_ceil(ladder, best.0, best.1) == Some(p)
        }),
    ensures
        p >= floor,
        p * t.1 >= t.0,
        below(t, (floor as int, 1)) ==> near_floor(ladder, floor, p),
        !below(t, (floor as int, 1)) ==> (rung_at(ladder, t.0, t.1) matches Some(u) && p * t.1
            < t.0 + u.step * t.1),
{
    let (t0, t1, f, x) = (t.0, t.1, floor as int, p as int);
    if below(t, (f, 1)) {
        law_tick_ceil_is_tight(ladder, f, 1);
        assert(x >= f);
        assert(x * t1 >= t0) by (nonlinear_arith)
            requires
                x >= f,
                t0 * 1 < f * t1,
                t1 > 0,
        ;
    } else {
        law_tick_ceil_is_tight(ladder, t0, t1);
        let u = rung_at(ladder, t0, t1)->0.step as int;
        assert((x - u) * t1 == x * t1 - u * t1) by (nonlinear_arith);
        assert(x >= f) by (nonlinear_arith)
            requires
                x * t1 >= t0,
                !(t0 * 1 < f * t1),
                t1 > 0,
        ;
    }
}

proof fn lemma_past(j: (int, int), t: (int, int), x: int)
    requires
        proper(j),
        proper(t),
        at_most(j, t),
        x * t.1 >= t.0,
    ensures
        x * j.1 >= j.0,
{
    let (j0, j1, t0, t1) = (j.0, j.1, t.0, t.1);
    assert(x * j1 >= j0) by (nonlinear_arith)
        requires
            x * t1 >= t0,
            j0 * t1 <= t0 * j1,
            t1 > 0,
            j1 > 0,
    ;
}

/// Whether a price is less than a step above the floor.
pub open spec fn near_floor(ladder: Seq<Rung>, floor: Px, p: Px) -> bool {
    rung_at(ladder, floor as int, 1) matches Some(t) && p < floor + t.step
}

/// Whether a price is less than a step above the one that stands a step inside
/// the ask.
pub open spec fn near_ask(ladder: Seq<Rung>, ask: Option<(int, int)>, p: Px) -> bool {
    ask matches Some(a) && rung_at(ladder, a.0 * 1_000_000, a.1) matches Some(r) && rung_at(
        ladder,
        a.0 * 1_000_000 - r.step * a.1,
        a.1,
    ) matches Some(t) && p * a.1 < a.0 * 1_000_000 - r.step * a.1 + t.step * a.1
}

/// Whether a price is less than a step above the lowest one that clears the bid by
/// a step.
pub open spec fn near_bid(ladder: Seq<Rung>, bid: Option<(int, int)>, p: Px) -> bool {
    bid matches Some(b) && rung_at(ladder, b.0 * 1_000_000, b.1) matches Some(r) && tick_ceil(
        ladder,
        b.0 * 1_000_000 + r.step * b.1,
        b.1,
    ) matches Some(o) && rung_at(ladder, o as int, 1) matches Some(u) && p < o + u.step
}

/// Where the floor, the price one step inside the competing ask and the price one
/// step over the bid are all prices that the ladder offers, the highest of them
/// is what is rested.
pub proof fn law_a_resting_ask_is_the_highest_of_three(
    ladder: Seq<Rung>,
    floor: Px,
    bid: Option<(int, int)>,
    ask: Option<(int, int)>,
    v: int,
    w: int,
    rv: Rung,
    rw: Rung,
    p: Px,
)
    requires
        ladder_ok(ladder),
        on_tick(ladder, floor as int),
        bid matches Some(b) && proper(b) && b.0 * 1_000_000 == v * b.1,
        ask matches Some(a) && proper(a) && a.0 * 1_000_000 == w * a.1,
        rung_at(ladder, v, 1) == Some(rv),
        rung_at(ladder, w, 1) == Some(rw),
        w - rw.step > 0,
        on_tick(ladder, w - rw.step),
        on_tick(ladder, v + rv.step),
        resting_ask(ladder, floor, bid, ask) == Ok::<Px, PriceRefusal>(p),
    ensures
        p >= floor,
        p >= w - rw.step,
        p >= v + rv.step,
        p == floor || p == w - rw.step || p == v + rv.step,
        p > v,
{
    let (a, b) = (ask->0, bid->0);
    let (s, t) = (rw.step as int, rv.step as int);
    assert(micro(a) == (w * a.1, a.1) && micro(b) == (v * b.1, b.1));
    lemma_same_as_whole(w, a.1);
    lemma_same_as_whole(v, b.1);
    lemma_rung(ladder, micro(a), (w, 1));
    lemma_rung(ladder, micro(b), (v, 1));
    let i = less_by(micro(a), (s, 1));
    let o = total(micro(b), (t, 1));
    assert(i == ((w * a.1) * 1 - s * a.1, a.1 * 1));
    assert(o == ((v * b.1) * 1 + t * b.1, b.1 * 1));
    let (a1, b1) = (a.1, b.1);
    assert((w - s) * a1 == w * a1 - s * a1) by (nonlinear_arith);
    assert((v + t) * b1 == v * b1 + t * b1) by (nonlinear_arith);
    lemma_same_as_whole(w - s, a1);
    lemma_same_as_whole(v + t, b1);
    assert(i == ((w - s) * a1, a1));
    assert(o == ((v + t) * b1, b1));
    lemma_tick(ladder, i, (w - s, 1));
    lemma_tick(ladder, o, (v + t, 1));
    let y = v + t;
    let x = w - s;
    assert(x * a1 > 0) by (nonlinear_arith)
        requires
            x > 0,
            a1 > 0,
    ;
    assert(below((y, 1), i) == (y < x)) by {
        assert((y * a1 < (x * a1) * 1) == (y < x)) by (nonlinear_arith)
            requires
                a1 > 0,
        ;
    }
    let touch = higher(Some(i), Some(y as i64))->0;
    let f = floor as int;
    if y < x {
        assert(((x * a1) * 1 < f * a1) == (x < f)) by (nonlinear_arith)
            requires
                a1 > 0,
        ;
    }
    law_tick_ceil_is_tight(ladder, v, 1);
    lemma_rung_at(ladder, v, 1);
    law_tick_ceil_is_tight(ladder, f, 1);
    assert(rv.wf());
}

proof fn lemma_same_as_whole(n: int, d: int)
    ensures
        d > 0 ==> equal((n * d, d), (n, 1)),
{
    assert((n * d) * 1 == n * d);
}

/// A resting bid is a whole cent, and the best one that it may be: no higher than
/// its ceiling, than a cent in front of the competing bid and than a cent under
/// the ask, and a cent more would be past one of the three.
pub proof fn law_a_resting_bid_is_the_best_cent(
    ceiling: Px,
    bid: Option<(int, int)>,
    ask: Option<(int, int)>,
    p: Px,
)
    requires
        -FARTHEST <= ceiling <= FARTHEST,
        bid matches Some(b) ==> proper(b),
        ask matches Some(a) ==> proper(a),
        bid is Some || (ask matches Some(a) && a.0 * 1_000_000 > 10_000 * a.1),
        resting_bid(ceiling, bid, ask) == Ok::<Px, PriceRefusal>(p),
    ensures
        0 < p <= ceiling,
        p % 10_000 == 0,
        ask matches Some(a) ==> (p + 10_000) * a.1 <= a.0 * 1_000_000,
        bid matches Some(b) ==> (p - 10_000) * b.1 <= b.0 * 1_000_000,
        p + 10_000 > ceiling || (bid matches Some(b) && p * b.1 > b.0 * 1_000_000) || (
        ask matches Some(a) && (p + 20_000) * a.1 > a.0 * 1_000_000),
{
    let (inside, under) = (inside_bid(bid), under_ask(ask));
    if let Some(b) = bid {
        assert(inside == Some(((b.0 * 1_000_000) * 1 + 10_000 * b.1, b.1 * 1)));
    }
    if let Some(a) = ask {
        assert(less_by(micro(a), (CENT as int, 1)) == ((a.0 * 1_000_000) * 1 - 10_000 * a.1, a.1
            * 1));
    }
    let t = lower(inside, under)->0;
    let best = if below((ceiling as int, 1), t) {
        (ceiling as int, 1int)
    } else {
        t
    };
    let c = ceiling as int;
    lemma_cents_below(best, c);
    let x = p as int;
    let (n, d) = (best.0, best.1);
    let q = n / d;
    lemma_floor_div(n, d);
    assert(q <= c) by (nonlinear_arith)
        requires
            q * d <= n,
            n <= c * d,
            d > 0,
    ;
    lemma_floor_div(crate::ratio::clamped(q), CENT as int);
    assert(cents_below(best) == x);
    assert(q >= x);
    assert(q < x + 10_000);
    assert(x % 10_000 == 0) by {
        vstd::arithmetic::div_mod::lemma_mod_multiples_basic(
            crate::ratio::clamped(q) / CENT as int,
            CENT as int,
        );
    }
    // The price is no more, and a cent more is not less, than what it is cut from.
    assert(x * d <= n) by (nonlinear_arith)
        requires
            x <= q,
            q * d <= n,
            d > 0,
    ;
    assert((x + 10_000) * d > n) by (nonlinear_arith)
        requires
            q + 1 <= x + 10_000,
            n < (q + 1) * d,
            d > 0,
    ;
    assert((x + 10_000) * d == x * d + 10_000 * d) by (nonlinear_arith);
    let (t0, t1) = (t.0, t.1);
    assert(x * t1 <= t0) by {
        if below((c, 1), t) {
            assert(x * t1 <= c * t1) by (nonlinear_arith)
                requires
                    x <= c,
                    t1 > 0,
            ;
        }
    }
    if let Some(b) = bid {
        let (b0, b1) = (b.0 * 1_000_000, b.1);
        let m = b0 + 10_000 * b1;
        assert(x * b1 <= m) by (nonlinear_arith)
            requires
                x * t1 <= t0,
                t0 * b1 <= m * t1,
                t1 > 0,
                b1 > 0,
        ;
        assert((x - 10_000) * b1 == x * b1 - 10_000 * b1) by (nonlinear_arith);
    }
    if let Some(a) = ask {
        let (a0, a1) = (a.0 * 1_000_000, a.1);
        let m = a0 - 10_000 * a1;
        assert((x + 10_000) * a1 == x * a1 + 10_000 * a1) by (nonlinear_arith);
        assert((x + 20_000) * a1 == x * a1 + 20_000 * a1) by (nonlinear_arith);
        if m > 0 {
            assert(x * a1 <= m) by (nonlinear_arith)
                requires
                    x * t1 <= t0,
                    t0 * a1 <= m * t1,
                    t1 > 0,
                    a1 > 0,
            ;
        } else {
            // A positive whole cent is not below an ask of a cent or less.
            assert(x >= 10_000);
            assert(x * a1 >= 10_000 * a1) by (nonlinear_arith)
                requires
                    x >= 10_000,
                    a1 > 0,
            ;
            assert(false);
        }
    }
}

} // verus!
