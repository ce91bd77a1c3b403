//! That a price is found wherever there is one.
use crate::fees::{law_fee_is_not_negative, lemma_fee_at, FeeSchedule, RATE_MAX};
use crate::ladder::{law_tick_ceil_is_tight, pennies, tick_ceil};
use crate::money::{lemma_ceil_div, qty_ok, unit, Px, CENT, FINE_CENT, ONE};
use crate::pricing::{
    allowed, climb, costs_within, dearest_close, descend, free_bound, least_ask, lemma_free_bound,
    locked_ct, nets, proper, reaches, six, wanted, MAX_TICK_WALK,
};
use crate::pricing_laws::{
    lemma_cost_is_lock, lemma_nets_is_lock, lemma_pennies, lemma_penny_step,
};
use crate::ratio::dollars;
use crate::venue::{Role, Venue};
use vstd::prelude::*;

verus! {

/// No fee is more than twenty-one cents a contract.
proof fn lemma_fee_is_small(fees: FeeSchedule, venue: Venue, role: Role, p: int, qty: i64)
    requires
        fees.wf(),
        qty_ok(qty),
        0 <= p <= ONE,
    ensures
        fees.fee_on(venue, role, p, qty as int) <= 21 * (CENT * unit(qty)),
{
    lemma_fee_at(fees, venue, role, p, qty as int, ONE as int);
    let q = qty as int;
    let one = ONE as int;
    let rates = one * one + one * ONE;
    assert(rates == 2_000_000_000_000) by (nonlinear_arith)
        requires
            one == 1_000_000,
            rates == one * one + one * 1_000_000,
    ;
    assert(rates * RATE_MAX * q == 2_000_000_000_000_000 * q) by (nonlinear_arith)
        requires
            rates == 2_000_000_000_000,
            RATE_MAX == 1_000,
    ;
    assert(CENT * unit(qty) == 100_000_000_000_000 * q) by (nonlinear_arith)
        requires
            unit(qty) == q * 10_000_000_000,
            CENT == 10_000,
    ;
    let f = fees.fee_on(venue, role, p, q);
    assert(f <= rates * RATE_MAX * q + FINE_CENT);
    assert(f <= 2_000_000_000_000_000 * q + 100_000_000_000_000);
    let c = CENT * unit(qty);
    assert(f <= 21 * c) by (nonlinear_arith)
        requires
            f <= 2_000_000_000_000_000 * q + 100_000_000_000_000,
            c == 100_000_000_000_000 * q,
            q >= 1,
    ;
}

proof fn lemma_climb_finds(
    fees: FeeSchedule,
    k_role: Role,
    qty: i64,
    want: (int, int),
    k_basis: Px,
    pm_basis: Px,
    l: Px,
    n: nat,
    j: nat,
    p: Px,
)
    requires
        fees.wf(),
        qty_ok(qty),
        proper(want),
        0 <= l <= p < ONE,
        l % CENT == 0,
        p % CENT == 0,
        nets(fees, k_role, qty, want, p as int),
        (l * unit(qty)) * want.1 >= want.0 + j * ((CENT * unit(qty)) * want.1),
        j + n >= 22,
        n > 0,
    ensures
        climb(fees, pennies(), k_role, qty, want, k_basis, pm_basis, l, n) is Ok,
    decreases n,
{
    let u = unit(qty);
    let w = want.1;
    if !nets(fees, k_role, qty, want, l as int) {
        let f = fees.fee_on(Venue::Kalshi, k_role, l as int, qty as int);
        lemma_fee_is_small(fees, Venue::Kalshi, k_role, l as int, qty);
        let c = CENT * u;
        let lu = l * u;
        let cw = c * w;
        if j >= 21 {
            assert(j * cw >= 21 * cw) by (nonlinear_arith)
                requires
                    j >= 21,
                    cw >= 0,
                    cw == c * w,
                    c >= 0,
                    w > 0,
            ;
            assert((lu - f) * w >= lu * w - 21 * cw) by (nonlinear_arith)
                requires
                    f <= 21 * c,
                    cw == c * w,
                    w > 0,
            ;
            assert(false);
        }
        assert(l < p);
        lemma_penny_step(l);
        let next = (l + CENT) as i64;
        let nu = next * u;
        assert(nu == lu + c) by (nonlinear_arith)
            requires
                nu == next * u,
                lu == l * u,
                c == 10_000 * u,
                next == l + 10_000,
        ;
        assert(nu * w == lu * w + cw) by (nonlinear_arith)
            requires
                nu == lu + c,
                cw == c * w,
        ;
        assert((j + 1) * cw == j * cw + cw) by (nonlinear_arith);
        lemma_climb_finds(
            fees,
            k_role,
            qty,
            want,
            k_basis,
            pm_basis,
            next,
            (n - 1) as nat,
            j + 1,
            p,
        );
    }
}

/// An ask is found wherever one pays: if any whole cent under a dollar locks the
/// floor, the search of a ladder of whole cents comes back with a price.
pub proof fn law_an_ask_is_found_where_one_pays(
    fees: FeeSchedule,
    k_basis: (int, int),
    pm_basis: (int, int),
    pm_close: (int, int),
    qty: i64,
    k_role: Role,
    pm_role: Role,
    floor: Px,
    p: Px,
)
    requires
        fees.wf(),
        qty_ok(qty),
        proper(k_basis),
        proper(pm_basis),
        proper(pm_close),
        0 < p < ONE,
        p % CENT == 0,
        reaches(
            locked_ct(
                fees,
                (k_role, pm_role),
                dollars(p as int),
                pm_close,
                k_basis,
                pm_basis,
                qty,
            ),
            floor,
        ),
    ensures
        least_ask(fees, pennies(), k_basis, pm_basis, pm_close, qty, k_role, pm_role, floor) is Ok,
{
    let want = wanted(fees, k_basis, pm_basis, pm_close, qty, pm_role, floor);
    let u = unit(qty);
    let (w0, w1) = (want.0, want.1);
    lemma_nets_is_lock(fees, p, k_basis, pm_basis, pm_close, qty, k_role, pm_role, floor);
    if w0 <= 0 {
        lemma_pennies(0, 1);
        lemma_ceil_div(0, CENT * 1);
        lemma_penny_step(0);
    } else {
        let f = fees.fee_on(Venue::Kalshi, k_role, p as int, qty as int);
        law_fee_is_not_negative(fees, Venue::Kalshi, k_role, p as int, qty as int);
        let den = w1 * u;
        assert(den > 0) by (nonlinear_arith)
            requires
                den == w1 * u,
                w1 > 0,
                u > 0,
        ;
        let x = p as int;
        assert(w0 <= x * den) by (nonlinear_arith)
            requires
                (x * u - f) * w1 >= w0,
                f >= 0,
                w1 > 0,
                den == w1 * u,
        ;
        assert(w0 < ONE * den) by (nonlinear_arith)
            requires
                w0 <= x * den,
                x < 1_000_000,
                den > 0,
        ;
        assert(ONE * u * w1 == ONE * den) by (nonlinear_arith)
            requires
                den == w1 * u,
        ;
        lemma_pennies(w0, den);
        law_tick_ceil_is_tight(pennies(), w0, den);
        let first = tick_ceil(pennies(), w0, den)->0;
        let fi = first as int;
        assert(fi <= x) by {
            let r = crate::ladder::rung_at(pennies(), w0, den)->0;
            assert(pennies()[0] == r);
            assert((fi - 10_000) * den < w0);
            assert(fi - 10_000 < x) by (nonlinear_arith)
                requires
                    (fi - 10_000) * den < w0,
                    w0 <= x * den,
                    den > 0,
            ;
        }
        assert((fi * u) * w1 == fi * den) by (nonlinear_arith)
            requires
                den == w1 * u,
        ;
        assert(0 * ((CENT * u) * w1) == 0);
        lemma_climb_finds(
            fees,
            k_role,
            qty,
            want,
            six(k_basis),
            six(pm_basis),
            first,
            MAX_TICK_WALK as nat,
            0,
            p,
        );
    }
}

proof fn lemma_descend_finds(
    fees: FeeSchedule,
    pm_role: Role,
    qty: i64,
    cap: (int, int),
    k_fill: Px,
    x: Px,
    n: nat,
    j: nat,
    p: Px,
)
    requires
        fees.wf(),
        qty_ok(qty),
        proper(cap),
        0 < p <= x,
        p <= ONE,
        x % CENT == 0,
        p % CENT == 0,
        costs_within(fees, pm_role, qty, cap, p as int),
        (x * unit(qty)) * cap.1 + j * ((CENT * unit(qty)) * cap.1) <= cap.0,
        j + n >= 22,
        n > 0,
    ensures
        descend(fees, pm_role, qty, cap, k_fill, x, n) is Ok,
    decreases n,
{
    let u = unit(qty);
    let w = cap.1;
    if !costs_within(fees, pm_role, qty, cap, x as int) {
        let f = fees.fee_on(Venue::PolymarketUs, pm_role, x as int, qty as int);
        let c = CENT * u;
        let xu = x * u;
        let cw = c * w;
        assert(cw >= 0) by (nonlinear_arith)
            requires
                cw == c * w,
                c >= 0,
                w > 0,
        ;
        assert(j * cw >= 0) by (nonlinear_arith)
            requires
                cw >= 0,
        ;
        if x > ONE {
            let rate = fees.rate(Venue::PolymarketUs, pm_role);
            let q = qty as int;
            let a = x * (ONE - x);
            assert(a <= 0) by (nonlinear_arith)
                requires
                    a == x * (1_000_000 - x),
                    x > 1_000_000,
            ;
            let b = rate * a;
            assert(b <= 0) by (nonlinear_arith)
                requires
                    b == rate * a,
                    rate >= 0,
                    a <= 0,
            ;
            assert(f <= 0) by (nonlinear_arith)
                requires
                    f == b * q,
                    b <= 0,
                    q >= 1,
            ;
            assert((xu + f) * w <= xu * w) by (nonlinear_arith)
                requires
                    f <= 0,
                    w > 0,
            ;
            assert(false);
        }
        lemma_fee_is_small(fees, Venue::PolymarketUs, pm_role, x as int, qty);
        if j >= 21 {
            assert(j * cw >= 21 * cw) by (nonlinear_arith)
                requires
                    j >= 21,
                    cw >= 0,
            ;
            assert((xu + f) * w <= xu * w + 21 * cw) by (nonlinear_arith)
                requires
                    f <= 21 * c,
                    cw == c * w,
                    w > 0,
            ;
            assert(false);
        }
        assert(p < x);
        let next = (x - CENT) as i64;
        let nu = next * u;
        assert(nu == xu - c) by (nonlinear_arith)
            requires
                nu == next * u,
                xu == x * u,
                c == 10_000 * u,
                next == x - 10_000,
        ;
        assert(nu * w == xu * w - cw) by (nonlinear_arith)
            requires
                nu == xu - c,
                cw == c * w,
        ;
        assert((j + 1) * cw == j * cw + cw) by (nonlinear_arith);
        lemma_descend_finds(fees, pm_role, qty, cap, k_fill, next, (n - 1) as nat, j + 1, p);
    }
}

/// A close is found wherever one pays: if any whole cent up to a dollar locks the
/// floor, the search comes back with a price.
pub proof fn law_a_close_is_found_where_one_pays(
    fees: FeeSchedule,
    k_fill: (int, int),
    k_basis: (int, int),
    pm_basis: (int, int),
    qty: i64,
    k_role: Role,
    pm_role: Role,
    floor: Px,
    p: Px,
)
    requires
        fees.wf(),
        qty_ok(qty),
        proper(k_fill),
        proper(k_basis),
        proper(pm_basis),
        0 < p <= ONE,
        p % CENT == 0,
        reaches(
            locked_ct(
                fees,
                (k_role, pm_role),
                k_fill,
                dollars(p as int),
                k_basis,
                pm_basis,
                qty,
            ),
            floor,
        ),
    ensures
        dearest_close(fees, k_fill, k_basis, pm_basis, qty, k_role, pm_role, floor) is Ok,
{
    let cap = allowed(fees, k_fill, k_basis, pm_basis, qty, k_role, floor);
    let u = unit(qty);
    let (c0, c1) = (cap.0, cap.1);
    lemma_cost_is_lock(fees, p, k_fill, k_basis, pm_basis, qty, k_role, pm_role, floor);
    let f = fees.fee_on(Venue::PolymarketUs, pm_role, p as int, qty as int);
    law_fee_is_not_negative(fees, Venue::PolymarketUs, pm_role, p as int, qty as int);
    let pu = p * u;
    assert(pu > 0) by (nonlinear_arith)
        requires
            pu == p * u,
            p > 0,
            u > 0,
    ;
    assert(pu * c1 > 0) by (nonlinear_arith)
        requires
            pu > 0,
            c1 > 0,
    ;
    assert((pu + f) * c1 >= pu * c1) by (nonlinear_arith)
        requires
            f >= 0,
            c1 > 0,
    ;
    lemma_free_bound(cap, qty);
    let top = free_bound(cap, qty);
    if p > top {
        assert(p >= top + CENT);
        let y = (top + CENT) * u;
        assert(y <= pu) by (nonlinear_arith)
            requires
                y == (top + 10_000) * u,
                pu == p * u,
                p >= top + 10_000,
                u > 0,
        ;
        assert(y * c1 <= pu * c1) by (nonlinear_arith)
            requires
                y <= pu,
                c1 > 0,
        ;
        assert(false);
    }
    assert(0 * ((CENT * u) * c1) == 0);
    lemma_descend_finds(
        fees,
        pm_role,
        qty,
        cap,
        six(k_fill),
        top as i64,
        MAX_TICK_WALK as nat,
        0,
        p,
    );
}

} // verus!
