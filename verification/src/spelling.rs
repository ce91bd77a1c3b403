//! That a price is what it comes to, however it is spelled: what is found of two
//! fractions that are equal is the same.
use crate::decimal::total;
use crate::fees::FeeSchedule;
use crate::ladder::{
    ladder_ok, law_tick_ceil_is_tight, lemma_rung_at, rung_at, rung_ceil, step_at, tick_ceil, Rung,
};
use crate::money::{
    ceil_div, lemma_ceil_div, lemma_floor_div, nearest, qty_ok, unit, Px, CENT, FINE_CENT,
    ONE,
};
use crate::pricing::{
    allowed, climb, cost, costs_within, dearest_close, descend, free_bound, least_ask, locked,
    locked_ct, micro, nets, proceeds, proper, six, sunk, want_shown, wanted, MAX_TICK_WALK,
};
use crate::pricing_laws::{lemma_less_by_grows, lemma_total_grows};
use crate::ratio::{down, less_by, scaled, shared, shown, spread};
use crate::venue::{Role, Venue};
use vstd::prelude::*;

verus! {

/// Whether two fractions are equal.
pub open spec fn equal(a: (int, int), b: (int, int)) -> bool {
    &&& proper(a)
    &&& proper(b)
    &&& a.0 * b.1 == b.0 * a.1
}

proof fn lemma_total(a: (int, int), b: (int, int), x: (int, int), y: (int, int))
    requires
        equal(a, x),
        equal(b, y),
    ensures
        equal(total(a, b), total(x, y)),
{
    lemma_total_grows(a, b, x, y);
    lemma_total_grows(x, y, a, b);
}

proof fn lemma_less_by(a: (int, int), b: (int, int), x: (int, int), y: (int, int))
    requires
        equal(a, x),
        equal(b, y),
    ensures
        equal(less_by(a, b), less_by(x, y)),
{
    lemma_less_by_grows(a, b, x, y);
    lemma_less_by_grows(x, y, a, b);
}

proof fn lemma_scaled(a: (int, int), x: (int, int), k: int)
    requires
        equal(a, x),
    ensures
        equal(scaled(a, k), scaled(x, k)),
        k > 0 ==> equal(shared(a, k), shared(x, k)),
{
    let (a0, a1, x0, x1) = (a.0, a.1, x.0, x.1);
    assert((a0 * k) * x1 == (a0 * x1) * k) by (nonlinear_arith);
    assert((x0 * k) * a1 == (x0 * a1) * k) by (nonlinear_arith);
    assert(a0 * (x1 * k) == (a0 * x1) * k) by (nonlinear_arith);
    assert(x0 * (a1 * k) == (x0 * a1) * k) by (nonlinear_arith);
    if k > 0 {
        assert(a1 * k > 0 && x1 * k > 0) by (nonlinear_arith)
            requires
                a1 > 0,
                x1 > 0,
                k > 0,
        ;
    }
}

proof fn lemma_spread(a: (int, int), x: (int, int))
    requires
        equal(a, x),
    ensures
        equal(spread(a), spread(x)),
{
    let (a0, a1, x0, x1) = (a.0, a.1, x.0, x.1);
    let (e, f) = (a1 - a0, x1 - x0);
    assert((a1 - a0) * x1 == a1 * x1 - a0 * x1) by (nonlinear_arith);
    assert((x1 - x0) * a1 == a1 * x1 - x0 * a1) by (nonlinear_arith);
    assert(e * x1 == f * a1);
    assert((a0 * e) * (x1 * x1) == (a0 * x1) * (e * x1)) by (nonlinear_arith);
    assert((x0 * f) * (a1 * a1) == (x0 * a1) * (f * a1)) by (nonlinear_arith);
    assert(a1 * a1 > 0 && x1 * x1 > 0) by (nonlinear_arith)
        requires
            a1 > 0,
            x1 > 0,
    ;
}

/// Whether a whole number is at most a fraction does not depend on its spelling.
pub proof fn lemma_order(a: (int, int), x: (int, int), n: int)
    requires
        equal(a, x),
    ensures
        (n * a.1 <= a.0) == (n * x.1 <= x.0),
        (n * a.1 < a.0) == (n * x.1 < x.0),
        (a.0 > 0) == (x.0 > 0),
{
    lemma_order_at(a, x, n);
    lemma_order_at(x, a, n);
    lemma_order_at(a, x, 0);
    lemma_order_at(x, a, 0);
}

proof fn lemma_order_at(a: (int, int), x: (int, int), n: int)
    requires
        equal(a, x),
    ensures
        n * a.1 <= a.0 ==> n * x.1 <= x.0,
        n * a.1 < a.0 ==> n * x.1 < x.0,
{
    let (a0, a1, x0, x1) = (a.0, a.1, x.0, x.1);
    assert((n * a1) * x1 == (n * x1) * a1) by (nonlinear_arith);
    if n * a1 <= a0 {
        let m = n * a1;
        assert(m * x1 <= a0 * x1) by (nonlinear_arith)
            requires
                m <= a0,
                x1 > 0,
        ;
        let y = n * x1;
        assert(y <= x0) by (nonlinear_arith)
            requires
                y * a1 <= x0 * a1,
                a1 > 0,
        ;
    }
    if n * a1 < a0 {
        let m = n * a1;
        assert(m * x1 < a0 * x1) by (nonlinear_arith)
            requires
                m < a0,
                x1 > 0,
        ;
        let y = n * x1;
        assert(y < x0) by (nonlinear_arith)
            requires
                y * a1 < x0 * a1,
                a1 > 0,
        ;
    }
}

/// Equal fractions are rounded alike.
pub proof fn lemma_rounded(a: (int, int), x: (int, int))
    requires
        equal(a, x),
    ensures
        a.0 / a.1 == x.0 / x.1,
        ceil_div(a.0, a.1) == ceil_div(x.0, x.1),
        nearest(a.0, a.1) == nearest(x.0, x.1),
{
    let q = a.0 / a.1;
    lemma_floor_div(a.0, a.1);
    lemma_floor_div(x.0, x.1);
    lemma_order(a, x, q);
    lemma_order(a, x, q + 1);
    let p = x.0 / x.1;
    let (x0, x1) = (x.0, x.1);
    assert(p == q) by (nonlinear_arith)
        requires
            p * x1 <= x0,
            x0 < (p + 1) * x1,
            q * x1 <= x0,
            x0 < (q + 1) * x1,
            x1 > 0,
    ;
    let c = ceil_div(a.0, a.1);
    lemma_ceil_div(a.0, a.1);
    lemma_ceil_div(x.0, x.1);
    lemma_order(a, x, c);
    lemma_order(a, x, c - 1);
    let d = ceil_div(x.0, x.1);
    assert(c == d) by (nonlinear_arith)
        requires
            c * x1 >= x0,
            (c - 1) * x1 < x0,
            d * x1 >= x0,
            (d - 1) * x1 < x0,
            x1 > 0,
    ;
    // What is left over, against half of the denominator.
    let (s, t) = (scaled(a, 2), scaled(x, 2));
    lemma_scaled(a, x, 2);
    lemma_order(s, t, 2 * q + 1);
    vstd::arithmetic::div_mod::lemma_fundamental_div_mod(a.0, a.1);
    vstd::arithmetic::div_mod::lemma_fundamental_div_mod(x.0, x.1);
    let a1 = a.1;
    assert((2 * q + 1) * a1 == 2 * (a1 * q) + a1) by (nonlinear_arith);
    assert((2 * q + 1) * x1 == 2 * (x1 * q) + x1) by (nonlinear_arith);
}

proof fn lemma_charge(
    fees: FeeSchedule,
    venue: Venue,
    role: Role,
    a: (int, int),
    x: (int, int),
    qty: int,
)
    requires
        equal(a, x),
    ensures
        equal(fees.charge_on(venue, role, a, qty), fees.charge_on(venue, role, x, qty)),
{
    let k = fees.rate(venue, role) * qty * (ONE * ONE);
    lemma_spread(a, x);
    lemma_scaled(spread(a), spread(x), k);
    let (s, t) = (scaled(spread(a), k), scaled(spread(x), k));
    lemma_scaled(s, t, FINE_CENT as int);
    lemma_rounded(shared(s, FINE_CENT as int), shared(t, FINE_CENT as int));
}

proof fn lemma_legs(fees: FeeSchedule, role: Role, a: (int, int), x: (int, int), qty: i64)
    requires
        equal(a, x),
    ensures
        equal(proceeds(fees, role, a, qty), proceeds(fees, role, x, qty)),
        equal(cost(fees, role, a, qty), cost(fees, role, x, qty)),
{
    let k = ONE * unit(qty);
    lemma_scaled(a, x, k);
    lemma_charge(fees, Venue::Kalshi, role, a, x, qty as int);
    lemma_charge(fees, Venue::PolymarketUs, role, a, x, qty as int);
    lemma_less_by(
        scaled(a, k),
        fees.charge_on(Venue::Kalshi, role, a, qty as int),
        scaled(x, k),
        fees.charge_on(Venue::Kalshi, role, x, qty as int),
    );
    lemma_total(
        scaled(a, k),
        fees.charge_on(Venue::PolymarketUs, role, a, qty as int),
        scaled(x, k),
        fees.charge_on(Venue::PolymarketUs, role, x, qty as int),
    );
}

proof fn lemma_sunk(a: (int, int), b: (int, int), x: (int, int), y: (int, int), qty: i64)
    requires
        equal(a, x),
        equal(b, y),
    ensures
        equal(sunk(a, b, qty), sunk(x, y, qty)),
{
    lemma_total(a, b, x, y);
    lemma_less_by(total(a, b), (1, 1), total(x, y), (1, 1));
    lemma_scaled(
        less_by(total(a, b), (1, 1)),
        less_by(total(x, y), (1, 1)),
        ONE * unit(qty),
    );
}

/// Equal fractions stand on one rung.
pub proof fn lemma_rung(ladder: Seq<Rung>, a: (int, int), x: (int, int))
    requires
        equal(a, x),
    ensures
        rung_at(ladder, a.0, a.1) == rung_at(ladder, x.0, x.1),
    decreases ladder.len(),
{
    if ladder.len() > 0 {
        lemma_order(a, x, ladder[0].start as int);
        lemma_order(a, x, ladder[0].end as int);
        lemma_rung(ladder.drop_first(), a, x);
    }
}

/// Equal fractions have one price above them.
pub proof fn lemma_tick(ladder: Seq<Rung>, a: (int, int), x: (int, int))
    requires
        equal(a, x),
        ladder_ok(ladder),
    ensures
        tick_ceil(ladder, a.0, a.1) == tick_ceil(ladder, x.0, x.1),
{
    lemma_rung(ladder, a, x);
    if let Some(r) = rung_at(ladder, a.0, a.1) {
        law_tick_ceil_is_tight(ladder, a.0, a.1);
        lemma_rung_at(ladder, a.0, a.1);
        let (s, t) = (r.start as int, r.step as int);
        let (p, q) = (less_by(a, (s, 1)), less_by(x, (s, 1)));
        lemma_less_by(a, (s, 1), x, (s, 1));
        lemma_scaled(p, q, t);
        lemma_rounded(shared(p, t), shared(q, t));
        assert(a.1 * 1 == a.1 && x.1 * 1 == x.1);
        assert(a.1 * t == t * a.1 && x.1 * t == t * x.1) by (nonlinear_arith);
        assert(rung_ceil(r, a.0, a.1) == rung_ceil(r, x.0, x.1));
    }
}

proof fn lemma_climb(
    fees: FeeSchedule,
    ladder: Seq<Rung>,
    k_role: Role,
    qty: i64,
    w: (int, int),
    v: (int, int),
    k_basis: Px,
    pm_basis: Px,
    l: Px,
    n: nat,
)
    requires
        equal(w, v),
        want_shown(w, qty) == want_shown(v, qty),
    ensures
        climb(fees, ladder, k_role, qty, w, k_basis, pm_basis, l, n) == climb(
            fees,
            ladder,
            k_role,
            qty,
            v,
            k_basis,
            pm_basis,
            l,
            n,
        ),
    decreases n,
{
    if n > 0 {
        let m = l * unit(qty) - fees.fee_on(Venue::Kalshi, k_role, l as int, qty as int);
        lemma_order(w, v, m);
        assert(nets(fees, k_role, qty, w, l as int) == nets(fees, k_role, qty, v, l as int));
        if let Some(step) = step_at(ladder, l) {
            if let Some(next) = tick_ceil(ladder, l + step, 1) {
                lemma_climb(
                    fees,
                    ladder,
                    k_role,
                    qty,
                    w,
                    v,
                    k_basis,
                    pm_basis,
                    next,
                    (n - 1) as nat,
                );
            }
        }
    }
}

proof fn lemma_shown(a: (int, int), x: (int, int), k: int)
    requires
        equal(a, x),
        k > 0,
    ensures
        shown(shared(a, k)) == shown(shared(x, k)),
        down(shared(a, k)) == down(shared(x, k)),
        six(a) == six(x),
{
    lemma_scaled(a, x, k);
    lemma_rounded(shared(a, k), shared(x, k));
    lemma_scaled(a, x, ONE as int);
    lemma_rounded(micro(a), micro(x));
}

/// The least ask does not depend on how the prices behind it are spelled.
pub proof fn law_the_least_ask_goes_by_what_prices_come_to(
    fees: FeeSchedule,
    ladder: Seq<Rung>,
    k_basis: (int, int),
    pm_basis: (int, int),
    pm_close: (int, int),
    k_basis2: (int, int),
    pm_basis2: (int, int),
    pm_close2: (int, int),
    qty: i64,
    k_role: Role,
    pm_role: Role,
    floor: Px,
)
    requires
        ladder_ok(ladder),
        qty_ok(qty),
        equal(k_basis, k_basis2),
        equal(pm_basis, pm_basis2),
        equal(pm_close, pm_close2),
    ensures
        least_ask(fees, ladder, k_basis, pm_basis, pm_close, qty, k_role, pm_role, floor)
            == least_ask(
            fees,
            ladder,
            k_basis2,
            pm_basis2,
            pm_close2,
            qty,
            k_role,
            pm_role,
            floor,
        ),
{
    let u = unit(qty);
    lemma_sunk(k_basis, pm_basis, k_basis2, pm_basis2, qty);
    lemma_legs(fees, pm_role, pm_close, pm_close2, qty);
    let (s, t) = (sunk(k_basis, pm_basis, qty), sunk(k_basis2, pm_basis2, qty));
    let (c, d) = (cost(fees, pm_role, pm_close, qty), cost(fees, pm_role, pm_close2, qty));
    lemma_total(s, c, t, d);
    let f = (floor * u, 1int);
    lemma_total(total(s, c), f, total(t, d), f);
    let w = wanted(fees, k_basis, pm_basis, pm_close, qty, pm_role, floor);
    let v = wanted(fees, k_basis2, pm_basis2, pm_close2, qty, pm_role, floor);
    assert(equal(w, v));
    lemma_order(w, v, 0);
    lemma_order(w, v, ONE * u);
    lemma_shown(w, v, u);
    lemma_shown(k_basis, k_basis2, u);
    lemma_shown(pm_basis, pm_basis2, u);
    lemma_shown(pm_close, pm_close2, u);
    lemma_scaled(w, v, u);
    lemma_tick(ladder, shared(w, u), shared(v, u));
    if let Some(l) = tick_ceil(ladder, w.0, w.1 * u) {
        lemma_climb(
            fees,
            ladder,
            k_role,
            qty,
            w,
            v,
            six(k_basis),
            six(pm_basis),
            l,
            MAX_TICK_WALK as nat,
        );
    }
}

proof fn lemma_descend(
    fees: FeeSchedule,
    pm_role: Role,
    qty: i64,
    c: (int, int),
    d: (int, int),
    k_fill: Px,
    p: Px,
    n: nat,
)
    requires
        equal(c, d),
    ensures
        descend(fees, pm_role, qty, c, k_fill, p, n) == descend(
            fees,
            pm_role,
            qty,
            d,
            k_fill,
            p,
            n,
        ),
    decreases n,
{
    if n > 0 && p > 0 {
        let m = p * unit(qty) + fees.fee_on(Venue::PolymarketUs, pm_role, p as int, qty as int);
        lemma_order(c, d, m);
        assert(costs_within(fees, pm_role, qty, c, p as int) == costs_within(
            fees,
            pm_role,
            qty,
            d,
            p as int,
        ));
        lemma_descend(
            fees,
            pm_role,
            qty,
            c,
            d,
            k_fill,
            (p - CENT) as i64,
            (n - 1) as nat,
        );
    }
}

/// The most that a close may pay does not depend on how the prices behind it are
/// spelled.
pub proof fn law_the_dearest_close_goes_by_what_prices_come_to(
    fees: FeeSchedule,
    k_fill: (int, int),
    k_basis: (int, int),
    pm_basis: (int, int),
    k_fill2: (int, int),
    k_basis2: (int, int),
    pm_basis2: (int, int),
    qty: i64,
    k_role: Role,
    pm_role: Role,
    floor: Px,
)
    requires
        qty_ok(qty),
        equal(k_fill, k_fill2),
        equal(k_basis, k_basis2),
        equal(pm_basis, pm_basis2),
    ensures
        dearest_close(fees, k_fill, k_basis, pm_basis, qty, k_role, pm_role, floor)
            == dearest_close(fees, k_fill2, k_basis2, pm_basis2, qty, k_role, pm_role, floor),
{
    let u = unit(qty);
    lemma_sunk(k_basis, pm_basis, k_basis2, pm_basis2, qty);
    lemma_legs(fees, k_role, k_fill, k_fill2, qty);
    let (s, t) = (sunk(k_basis, pm_basis, qty), sunk(k_basis2, pm_basis2, qty));
    let (b, e) = (proceeds(fees, k_role, k_fill, qty), proceeds(fees, k_role, k_fill2, qty));
    let f = (floor * u, 1int);
    lemma_total(s, f, t, f);
    lemma_less_by(b, total(s, f), e, total(t, f));
    let c = allowed(fees, k_fill, k_basis, pm_basis, qty, k_role, floor);
    let d = allowed(fees, k_fill2, k_basis2, pm_basis2, qty, k_role, floor);
    assert(equal(c, d));
    lemma_order(c, d, 0);
    lemma_shown(b, e, u);
    lemma_shown(c, d, u);
    lemma_shown(k_fill, k_fill2, u);
    lemma_shown(k_basis, k_basis2, u);
    lemma_shown(pm_basis, pm_basis2, u);
    assert(free_bound(c, qty) == free_bound(d, qty));
    lemma_descend(
        fees,
        pm_role,
        qty,
        c,
        d,
        six(k_fill),
        free_bound(c, qty) as i64,
        MAX_TICK_WALK as nat,
    );
}

/// What a contract locks does not depend on how the prices behind it are spelled.
pub proof fn law_a_lock_goes_by_what_prices_come_to(
    fees: FeeSchedule,
    roles: (Role, Role),
    k_px: (int, int),
    pm_px: (int, int),
    k_basis: (int, int),
    pm_basis: (int, int),
    k_px2: (int, int),
    pm_px2: (int, int),
    k_basis2: (int, int),
    pm_basis2: (int, int),
    qty: i64,
)
    requires
        qty_ok(qty),
        equal(k_px, k_px2),
        equal(pm_px, pm_px2),
        equal(k_basis, k_basis2),
        equal(pm_basis, pm_basis2),
    ensures
        equal(
            locked_ct(fees, roles, k_px, pm_px, k_basis, pm_basis, qty),
            locked_ct(fees, roles, k_px2, pm_px2, k_basis2, pm_basis2, qty),
        ),
{
    lemma_sunk(k_basis, pm_basis, k_basis2, pm_basis2, qty);
    lemma_legs(fees, roles.0, k_px, k_px2, qty);
    lemma_legs(fees, roles.1, pm_px, pm_px2, qty);
    let (s, t) = (sunk(k_basis, pm_basis, qty), sunk(k_basis2, pm_basis2, qty));
    let (c, d) = (cost(fees, roles.1, pm_px, qty), cost(fees, roles.1, pm_px2, qty));
    lemma_total(s, c, t, d);
    lemma_less_by(
        proceeds(fees, roles.0, k_px, qty),
        total(s, c),
        proceeds(fees, roles.0, k_px2, qty),
        total(t, d),
    );
    lemma_scaled(
        locked(fees, roles, k_px, pm_px, k_basis, pm_basis, qty),
        locked(fees, roles, k_px2, pm_px2, k_basis2, pm_basis2, qty),
        unit(qty),
    );
}

} // verus!
