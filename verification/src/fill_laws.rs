//! What a fill is booked at, in terms of what the venue said.
use crate::decimal::{below, fraction_of, per, total};
use crate::exit::prices_booked;
use crate::fills::{believed, booked_at, fill_ratio, plausible, OrderFill};
use crate::market_laws::off_by_at_most;
use crate::money::{law_four_decimals_are_read_back, lemma_nearest, nearest};
use crate::order::Order;
use crate::pricing::proper;
use crate::spelling::{equal, lemma_rounded};
use crate::venue::{Direction, Shape};
use vstd::prelude::*;

verus! {

/// The price of a fill times its contracts is what they cost, takers' and makers'
/// cost together; and where the cost is that of the other outcome, it is what the
/// contracts pay without it. Nothing filled has no price.
pub proof fn law_a_fill_costs_its_price(
    qty: String,
    taker: String,
    maker: String,
    complement: bool,
    q: (int, int),
    t: (int, int),
    m: (int, int),
)
    requires
        fraction_of(qty@) == Some(q),
        fraction_of(taker@) == Some(t),
        fraction_of(maker@) == Some(m),
    ensures
        ({
            let f = OrderFill::Notional {
                qty,
                taker_cost_usd: taker,
                maker_cost_usd: maker,
                complement,
            };
            let paid = t.0 * m.1 + m.0 * t.1;
            let shares = t.1 * m.1;
            &&& q.0 <= 0 ==> fill_ratio(f) is None
            &&& q.0 > 0 ==> (fill_ratio(f) matches Some(px) && px.1 > 0 && (if complement {
                px.1 - px.0
            } else {
                px.0
            }) * (q.0 * shares) == px.1 * (q.1 * paid))
        }),
{
    crate::closing::lemma_read_is_proper(qty@);
    crate::closing::lemma_read_is_proper(taker@);
    crate::closing::lemma_read_is_proper(maker@);
    let paid = t.0 * m.1 + m.0 * t.1;
    let shares = t.1 * m.1;
    assert(shares > 0) by (nonlinear_arith)
        requires
            shares == t.1 * m.1,
            t.1 > 0,
            m.1 > 0,
    ;
    if q.0 > 0 {
        let (q0, q1) = (q.0, q.1);
        assert(shares * q0 > 0) by (nonlinear_arith)
            requires
                shares > 0,
                q0 > 0,
        ;
        assert(per(total(t, m), q) == (paid * q1, shares * q0));
        assert((paid * q1) * (q0 * shares) == (shares * q0) * (q1 * paid)) by (nonlinear_arith);
    }
}

/// How the cost of a fill is split between taker and maker does not matter: two
/// answers for one quantity whose costs come to the same are booked alike.
pub proof fn law_the_split_of_a_cost_does_not_matter(
    qty: String,
    taker: String,
    maker: String,
    taker2: String,
    maker2: String,
    complement: bool,
    limit: Seq<char>,
    selling: bool,
)
    requires
        fraction_of(taker@) is Some,
        fraction_of(maker@) is Some,
        fraction_of(taker2@) is Some,
        fraction_of(maker2@) is Some,
        ({
            let (t, m) = (fraction_of(taker@)->0, fraction_of(maker@)->0);
            let (u, n) = (fraction_of(taker2@)->0, fraction_of(maker2@)->0);
            (t.0 * m.1 + m.0 * t.1) * (u.1 * n.1) == (u.0 * n.1 + n.0 * u.1) * (t.1 * m.1)
        }),
    ensures
        booked_at(
            Some(
                OrderFill::Notional {
                    qty,
                    taker_cost_usd: taker,
                    maker_cost_usd: maker,
                    complement,
                },
            ),
            limit,
            selling,
        ) == booked_at(
            Some(
                OrderFill::Notional {
                    qty,
                    taker_cost_usd: taker2,
                    maker_cost_usd: maker2,
                    complement,
                },
            ),
            limit,
            selling,
        ),
{
    let f = OrderFill::Notional { qty, taker_cost_usd: taker, maker_cost_usd: maker, complement };
    let g = OrderFill::Notional { qty, taker_cost_usd: taker2, maker_cost_usd: maker2, complement };
    if let Some(q) = fraction_of(qty@) {
        let (t, m) = (fraction_of(taker@)->0, fraction_of(maker@)->0);
        let (u, n) = (fraction_of(taker2@)->0, fraction_of(maker2@)->0);
        law_a_fill_costs_its_price(qty, taker, maker, complement, q, t, m);
        law_a_fill_costs_its_price(qty, taker2, maker2, complement, q, u, n);
        if q.0 > 0 {
            let (c, d) = (total(t, m), total(u, n));
            let (x, y) = (per(c, q), per(d, q));
            let (c0, c1, d0, d1, q0, q1) = (c.0, c.1, d.0, d.1, q.0, q.1);
            assert((c0 * q1) * (d1 * q0) == (c0 * d1) * (q1 * q0)) by (nonlinear_arith);
            assert((d0 * q1) * (c1 * q0) == (d0 * c1) * (q1 * q0)) by (nonlinear_arith);
            let (a, b) = (fill_ratio(f)->0, fill_ratio(g)->0);
            assert(x.0 * y.1 == y.0 * x.1);
            assert(equal(a, b)) by {
                if complement {
                    let (x0, x1, y0, y1) = (x.0, x.1, y.0, y.1);
                    assert((x1 - x0) * y1 == x1 * y1 - x0 * y1) by (nonlinear_arith);
                    assert((y1 - y0) * x1 == x1 * y1 - y0 * x1) by (nonlinear_arith);
                }
            }
            lemma_booked_alike(f, g, a, b, limit, selling);
        }
    }
}

pub proof fn lemma_booked_alike(
    f: OrderFill,
    g: OrderFill,
    a: (int, int),
    b: (int, int),
    limit: Seq<char>,
    selling: bool,
)
    requires
        fill_ratio(f) == Some(a),
        fill_ratio(g) == Some(b),
        equal(a, b),
    ensures
        believed(f, limit, selling) == believed(g, limit, selling),
{
    crate::closing::lemma_read_is_proper(limit);
    let (a0, a1, b0, b1) = (a.0, a.1, b.0, b.1);
    crate::spelling::lemma_order(a, b, 0);
    crate::spelling::lemma_order(a, b, 1);
    assert((a0 * 10_000) * b1 == 10_000 * (a0 * b1)) by (nonlinear_arith);
    assert((b0 * 10_000) * a1 == 10_000 * (b0 * a1)) by (nonlinear_arith);
    lemma_rounded((a0 * 10_000, a1), (b0 * 10_000, b1));
    if let Some(l) = fraction_of(limit) {
        let (l0, l1) = (l.0, l.1);
        assert((a0 * l1 < l0 * a1) == (b0 * l1 < l0 * b1)) by {
            lemma_against(a, b, l);
            lemma_against(b, a, l);
        }
        assert((l0 * a1 < a0 * l1) == (l0 * b1 < b0 * l1)) by {
            lemma_against(a, b, l);
            lemma_against(b, a, l);
        }
    }
    assert((a0 < a1) == (b0 < b1)) by {
        lemma_against(a, b, (1, 1));
        lemma_against(b, a, (1, 1));
    }
}

proof fn lemma_against(a: (int, int), b: (int, int), l: (int, int))
    requires
        equal(a, b),
        proper(l),
    ensures
        below(a, l) ==> below(b, l),
        below(l, a) ==> below(l, b),
{
    let (a0, a1, b0, b1, l0, l1) = (a.0, a.1, b.0, b.1, l.0, l.1);
    assert((a0 * l1) * b1 == (a0 * b1) * l1) by (nonlinear_arith);
    assert((b0 * l1) * a1 == (b0 * a1) * l1) by (nonlinear_arith);
    assert((l0 * a1) * b1 == (l0 * b1) * a1) by (nonlinear_arith);
    let (p, q, r, s) = (a0 * l1, l0 * a1, b0 * l1, l0 * b1);
    if p < q {
        assert(r < s) by (nonlinear_arith)
            requires
                p < q,
                p * b1 == r * a1,
                q * b1 == s * a1,
                a1 > 0,
                b1 > 0,
        ;
    }
    if q < p {
        assert(s < r) by (nonlinear_arith)
            requires
                q < p,
                p * b1 == r * a1,
                q * b1 == s * a1,
                a1 > 0,
                b1 > 0,
        ;
    }
}

/// A fill is booked at its own price, to the nearest ten-thousandth, just where
/// that price lies strictly between nothing and a dollar and is no worse than the
/// limit: no lower where it sold and no higher where it bought. Else the limit is
/// booked.
pub proof fn law_a_fill_is_booked_where_it_keeps_its_limit(
    f: OrderFill,
    limit: Seq<char>,
    selling: bool,
    px: (int, int),
    lim: (int, int),
)
    requires
        fill_ratio(f) == Some(px),
        proper(px),
        fraction_of(limit) == Some(lim),
    ensures
        ({
            let kept = 0 < px.0 && px.0 < px.1 && (if selling {
                px.0 * lim.1 >= lim.0 * px.1
            } else {
                px.0 * lim.1 <= lim.0 * px.1
            });
            let text = booked_at(Some(f), limit, selling);
            &&& kept ==> (fraction_of(text) matches Some(y) && off_by_at_most(px, y, 50))
            &&& !kept ==> text == limit
        }),
        booked_at(None, limit, selling) == limit,
{
    let n = nearest(px.0 * 10_000, px.1);
    lemma_nearest(px.0 * 10_000, px.1);
    law_four_decimals_are_read_back(n);
    let p1 = px.1;
    assert(n * p1 == p1 * n) by (nonlinear_arith);
}

/// An average price is the price of the fill.
pub proof fn law_an_average_is_the_price(avg_px: String)
    ensures
        fill_ratio(OrderFill::Average { avg_px }) == fraction_of(avg_px@),
{
}

/// Two prices are plausible together, whichever way round the basket is held,
/// just where they are less than half a dollar apart.
pub proof fn law_plausible_prices_are_close_together(
    direction: Direction,
    k_px: Seq<char>,
    pm_px: Seq<char>,
    k: (int, int),
    pm: (int, int),
)
    requires
        fraction_of(k_px) == Some(k),
        fraction_of(pm_px) == Some(pm),
    ensures
        plausible(direction, k_px, pm_px) <==> -(k.1 * pm.1) < 2 * (k.0 * pm.1 - pm.0 * k.1) < k.1
            * pm.1,
{
    crate::closing::lemma_read_is_proper(k_px);
    crate::closing::lemma_read_is_proper(pm_px);
    let (k0, k1, p0, p1) = (k.0, k.1, pm.0, pm.1);
    assert((p1 - p0) * k1 == k1 * p1 - p0 * k1) by (nonlinear_arith);
    assert((k1 - k0) * p1 == k1 * p1 - k0 * p1) by (nonlinear_arith);
    assert(p1 * k1 == k1 * p1) by (nonlinear_arith);
}

/// The prices of an exit are what its two venues say where they are less than
/// half a dollar apart, the first leg's from the venue where it rested and the
/// close's from the other; a leg that sold is booked no lower than its limit, and
/// one that bought no higher, to half a ten-thousandth. Else both limits are booked.
pub proof fn law_an_exit_is_booked_no_worse_than_its_limits(
    o: Order,
    rest_fill: Option<OrderFill>,
    close_fill: Option<OrderFill>,
    limit: Seq<char>,
    sent: (int, int),
    lim: (int, int),
)
    requires
        fraction_of(o.sent_at()@) == Some(sent),
        fraction_of(limit) == Some(lim),
    ensures
        ({
            let (rest, close, told) = prices_booked(o, rest_fill, close_fill, limit);
            let own_rest = booked_at(rest_fill, o.sent_at()@, o.shape == Shape::RestKalshi);
            let own_close = booked_at(close_fill, limit, o.shape == Shape::RestPmUs);
            &&& !told ==> rest == o.sent_at()@ && close == limit
            &&& told ==> rest == own_rest && close == own_close
            &&& told <==> (fraction_of(own_rest) matches Some(r) && fraction_of(
                own_close,
            ) matches Some(c) && -(r.1 * c.1) < 2 * (r.0 * c.1 - c.0 * r.1) < r.1 * c.1)
            &&& rest_fill is None && close_fill is None ==> rest == o.sent_at()@ && close == limit
            &&& told ==> (fraction_of(rest) matches Some(r) && fraction_of(close) matches Some(c)
                && -(r.1 * c.1) < 2 * (r.0 * c.1 - c.0 * r.1) < r.1 * c.1 && (match o.shape {
                Shape::RestKalshi => no_lower(r, sent) && no_lower(lim, c),
                Shape::RestPmUs => no_lower(sent, r) && no_lower(c, lim),
            }))
        }),
{
    crate::closing::lemma_read_is_proper(o.sent_at()@);
    crate::closing::lemma_read_is_proper(limit);
    let selling_first = o.shape == Shape::RestKalshi;
    let rest = booked_at(rest_fill, o.sent_at()@, selling_first);
    let close = booked_at(close_fill, limit, !selling_first);
    lemma_booked(rest_fill, o.sent_at()@, selling_first, sent);
    lemma_booked(close_fill, limit, !selling_first, lim);
    crate::closing::lemma_read_is_proper(rest);
    crate::closing::lemma_read_is_proper(close);
    let (r, c) = (fraction_of(rest)->0, fraction_of(close)->0);
    match o.shape {
        Shape::RestKalshi => {
            law_plausible_prices_are_close_together(Direction::Standard, rest, close, r, c);
        },
        Shape::RestPmUs => {
            law_plausible_prices_are_close_together(Direction::Standard, close, rest, c, r);
            assert(c.1 * r.1 == r.1 * c.1) by (nonlinear_arith);
        },
    }
}

/// Whether a price is no lower than another, to half a ten-thousandth.
pub open spec fn no_lower(a: (int, int), b: (int, int)) -> bool {
    20_000 * (b.0 * a.1 - a.0 * b.1) <= a.1 * b.1
}

pub proof fn lemma_booked(fill: Option<OrderFill>, limit: Seq<char>, selling: bool, lim: (int, int))
    requires
        fraction_of(limit) == Some(lim),
        proper(lim),
    ensures
        fraction_of(booked_at(fill, limit, selling)) matches Some(y) && (if selling {
            no_lower(y, lim)
        } else {
            no_lower(lim, y)
        }),
{
    let (l0, l1) = (lim.0, lim.1);
    assert(20_000 * (l0 * l1 - l0 * l1) <= l1 * l1) by (nonlinear_arith)
        requires
            l1 > 0,
    ;
    if let Some(f) = fill {
        if let Some(n) = believed(f, limit, selling) {
            let px = fill_ratio(f)->0;
            let (p0, p1) = (px.0, px.1);
            lemma_nearest(p0 * 10_000, p1);
            law_four_decimals_are_read_back(n);
            // The rounded price is off by half a unit, and the price keeps the limit.
            if selling {
                assert(20_000 * (l0 * 10_000 - n * l1) <= 10_000 * l1) by (nonlinear_arith)
                    requires
                        2 * (p0 * 10_000 - n * p1) <= p1,
                        p0 * l1 >= l0 * p1,
                        p1 > 0,
                        l1 > 0,
                ;
            } else {
                assert(20_000 * (n * l1 - l0 * 10_000) <= l1 * 10_000) by (nonlinear_arith)
                    requires
                        2 * (n * p1 - p0 * 10_000) <= p1,
                        p0 * l1 <= l0 * p1,
                        p1 > 0,
                        l1 > 0,
                ;
            }
        }
    }
}

} // verus!
