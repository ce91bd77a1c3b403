//! What holds of every price that the searches find.
use crate::decimal::{below, total};
use crate::fees::{
    law_a_charge_at_whole_millionths_is_the_fee, law_fee_is_not_negative, FeeSchedule,
};
use crate::ladder::{ladder_ok, law_tick_ceil_is_tight, pennies, rung_at, step_at, tick_ceil, Rung};
use crate::money::{ceil_div, lemma_ceil_div, qty_ok, unit, Px, CENT, ONE};
use crate::pricing::{
    allowed, climb, cost, costs_within, dearest_close, descend, free_bound, higher, inside_ask,
    inside_bid, least_ask, lemma_cents_below, lemma_free_bound, locked, locked_ct, lower, micro,
    nets, over_bid, proceeds, proper, reaches, resting_ask, resting_bid, sunk, under_ask, wanted,
    PriceRefusal, MAX_TICK_WALK,
};
use crate::ratio::{dollars, less_by, scaled, shared, FARTHEST};
use crate::venue::{Role, Venue};
use vstd::prelude::*;

verus! {

// -------------------------------------------------------------------- fractions

/// Whether a fraction is no more than another.
pub open spec fn at_most(a: (int, int), b: (int, int)) -> bool {
    !below(b, a)
}

/// Fractions are ordered.
pub proof fn lemma_at_most_trans(a: (int, int), b: (int, int), c: (int, int))
    requires
        proper(a),
        proper(b),
        proper(c),
        at_most(a, b),
        at_most(b, c),
    ensures
        at_most(a, c),
{
    let (a0, a1, b0, b1, c0, c1) = (a.0, a.1, b.0, b.1, c.0, c.1);
    assert((a0 * c1) * b1 <= (c0 * a1) * b1) by (nonlinear_arith)
        requires
            a0 * b1 <= b0 * a1,
            b0 * c1 <= c0 * b1,
            a1 > 0,
            b1 > 0,
            c1 > 0,
    ;
    assert(a0 * c1 <= c0 * a1) by (nonlinear_arith)
        requires
            (a0 * c1) * b1 <= (c0 * a1) * b1,
            b1 > 0,
    ;
}

proof fn lemma_regroup(a: int, b: int, c: int, d: int)
    ensures
        (a * b) * (c * d) == (a * c) * (b * d),
{
    assert((a * b) * (c * d) == (a * c) * (b * d)) by (nonlinear_arith);
}

/// A sum grows with both its parts.
pub proof fn lemma_total_grows(a: (int, int), b: (int, int), x: (int, int), y: (int, int))
    requires
        proper(a),
        proper(b),
        proper(x),
        proper(y),
        at_most(a, x),
        at_most(b, y),
    ensures
        proper(total(a, b)),
        proper(total(x, y)),
        at_most(total(a, b), total(x, y)),
{
    let (a0, a1, b0, b1) = (a.0, a.1, b.0, b.1);
    let (x0, x1, y0, y1) = (x.0, x.1, y.0, y.1);
    assert(a1 * b1 > 0) by (nonlinear_arith)
        requires
            a1 > 0,
            b1 > 0,
    ;
    assert(x1 * y1 > 0) by (nonlinear_arith)
        requires
            x1 > 0,
            y1 > 0,
    ;
    let (p, q) = (b1 * y1, a1 * x1);
    assert(p > 0 && q > 0) by (nonlinear_arith)
        requires
            p == b1 * y1,
            q == a1 * x1,
            a1 > 0,
            b1 > 0,
            x1 > 0,
            y1 > 0,
    ;
    let (r, s) = (a0 * x1, x0 * a1);
    let (t, v) = (b0 * y1, y0 * b1);
    assert(r * p <= s * p) by (nonlinear_arith)
        requires
            r <= s,
            p > 0,
    ;
    assert(t * q <= v * q) by (nonlinear_arith)
        requires
            t <= v,
            q > 0,
    ;
    lemma_regroup(a0, b1, x1, y1);
    lemma_regroup(b0, a1, y1, x1);
    lemma_regroup(x0, y1, a1, b1);
    lemma_regroup(y0, x1, b1, a1);
    assert(x1 * y1 == y1 * x1 && a1 * b1 == b1 * a1 && b1 * y1 == y1 * b1 && a1 * x1 == x1 * a1)
        by (nonlinear_arith);
    let (i, j, k, l) = (a0 * b1, b0 * a1, x0 * y1, y0 * x1);
    let (m, n) = (x1 * y1, a1 * b1);
    assert((i + j) * m == i * m + j * m) by (nonlinear_arith);
    assert((k + l) * n == k * n + l * n) by (nonlinear_arith);
}

/// A difference grows with what is taken from, and falls with what is taken.
pub proof fn lemma_less_by_grows(a: (int, int), b: (int, int), x: (int, int), y: (int, int))
    requires
        proper(a),
        proper(b),
        proper(x),
        proper(y),
        at_most(a, x),
        at_most(y, b),
    ensures
        proper(less_by(a, b)),
        proper(less_by(x, y)),
        at_most(less_by(a, b), less_by(x, y)),
{
    let (m, n) = ((-b.0, b.1), (-y.0, y.1));
    assert((-b.0) * y.1 <= (-y.0) * b.1) by (nonlinear_arith)
        requires
            y.0 * b.1 <= b.0 * y.1,
    ;
    lemma_total_grows(a, m, x, n);
    assert((-b.0) * a.1 == -(b.0 * a.1)) by (nonlinear_arith);
    assert((-y.0) * x.1 == -(y.0 * x.1)) by (nonlinear_arith);
}

/// Shares of what grows grow.
pub proof fn lemma_shares_grow(a: (int, int), b: (int, int), k: int)
    requires
        proper(a),
        proper(b),
        k > 0,
        at_most(a, b),
    ensures
        proper(shared(a, k)),
        proper(shared(b, k)),
        at_most(shared(a, k), shared(b, k)),
        at_most(scaled(a, k), scaled(b, k)),
{
    let (a0, a1, b0, b1) = (a.0, a.1, b.0, b.1);
    assert(a1 * k > 0 && b1 * k > 0) by (nonlinear_arith)
        requires
            a1 > 0,
            b1 > 0,
            k > 0,
    ;
    assert(a0 * (b1 * k) <= b0 * (a1 * k)) by (nonlinear_arith)
        requires
            a0 * b1 <= b0 * a1,
            k > 0,
    ;
    assert((a0 * k) * b1 <= (b0 * k) * a1) by (nonlinear_arith)
        requires
            a0 * b1 <= b0 * a1,
            k > 0,
    ;
}

// -------------------------------------------------------- what an exit locks

pub proof fn lemma_proper(
    fees: FeeSchedule,
    role: Role,
    x: (int, int),
    k_basis: (int, int),
    pm_basis: (int, int),
    qty: i64,
)
    requires
        proper(x),
        proper(k_basis),
        proper(pm_basis),
    ensures
        proper(proceeds(fees, role, x, qty)),
        proper(cost(fees, role, x, qty)),
        proper(sunk(k_basis, pm_basis, qty)),
{
    let d = x.1;
    assert(d * d > 0) by (nonlinear_arith)
        requires
            d > 0,
    ;
    let e = d * d;
    assert(d * e > 0) by (nonlinear_arith)
        requires
            d > 0,
            e > 0,
    ;
    let (a, b) = (k_basis.1, pm_basis.1);
    assert(a * b > 0) by (nonlinear_arith)
        requires
            a > 0,
            b > 0,
    ;
}

/// At a whole number of millionths a sale brings the price without its fee, and a
/// purchase costs the price and its fee.
pub proof fn lemma_at_whole_millionths(fees: FeeSchedule, role: Role, p: int, qty: i64)
    ensures
        proper(proceeds(fees, role, dollars(p), qty)),
        proper(cost(fees, role, dollars(p), qty)),
        proceeds(fees, role, dollars(p), qty).0 == (p * unit(qty) - fees.fee_on(
            Venue::Kalshi,
            role,
            p,
            qty as int,
        )) * proceeds(fees, role, dollars(p), qty).1,
        cost(fees, role, dollars(p), qty).0 == (p * unit(qty) + fees.fee_on(
            Venue::PolymarketUs,
            role,
            p,
            qty as int,
        )) * cost(fees, role, dollars(p), qty).1,
{
    let u = unit(qty);
    let one = ONE as int;
    law_a_charge_at_whole_millionths_is_the_fee(fees, Venue::Kalshi, role, p, qty as int);
    law_a_charge_at_whole_millionths_is_the_fee(fees, Venue::PolymarketUs, role, p, qty as int);
    let f = fees.fee_on(Venue::Kalshi, role, p, qty as int);
    let c = fees.charge_on(Venue::Kalshi, role, dollars(p), qty as int);
    let c1 = c.1;
    let (pu, oc) = (p * u, one * c1);
    assert((p * (one * u)) * c1 == (p * u) * (one * c1)) by (nonlinear_arith);
    assert((f * c1) * one == f * (one * c1)) by (nonlinear_arith);
    assert((pu - f) * oc == pu * oc - f * oc) by (nonlinear_arith);
    let g = fees.fee_on(Venue::PolymarketUs, role, p, qty as int);
    let d = fees.charge_on(Venue::PolymarketUs, role, dollars(p), qty as int);
    let d1 = d.1;
    let od = one * d1;
    assert((p * (one * u)) * d1 == (p * u) * (one * d1)) by (nonlinear_arith);
    assert((g * d1) * one == g * (one * d1)) by (nonlinear_arith);
    assert((pu + g) * od == pu * od + g * od) by (nonlinear_arith);
    assert(one * c1 > 0 && one * d1 > 0);
}

/// What is locked grows with what the sale brings, and falls with what the lot
/// and the purchase cost.
pub proof fn lemma_lock_grows(
    fees: FeeSchedule,
    roles: (Role, Role),
    k: (int, int),
    pm: (int, int),
    kb: (int, int),
    pb: (int, int),
    k2: (int, int),
    pm2: (int, int),
    kb2: (int, int),
    qty: i64,
    floor: Px,
)
    requires
        qty_ok(qty),
        proper(k),
        proper(pm),
        proper(kb),
        proper(pb),
        proper(k2),
        proper(pm2),
        proper(kb2),
        at_most(proceeds(fees, roles.0, k, qty), proceeds(fees, roles.0, k2, qty)),
        at_most(cost(fees, roles.1, pm2, qty), cost(fees, roles.1, pm, qty)),
        at_most(kb2, kb),
        reaches(locked_ct(fees, roles, k, pm, kb, pb, qty), floor),
    ensures
        reaches(locked_ct(fees, roles, k2, pm2, kb2, pb, qty), floor),
{
    let u = unit(qty);
    lemma_proper(fees, roles.0, k, kb, pb, qty);
    lemma_proper(fees, roles.0, k2, kb2, pb, qty);
    lemma_proper(fees, roles.1, pm, kb, pb, qty);
    lemma_proper(fees, roles.1, pm2, kb2, pb, qty);
    lemma_total_grows(kb2, pb, kb, pb);
    let (x, y) = (total(kb2, pb), total(kb, pb));
    lemma_less_by_grows(x, (1, 1), y, (1, 1));
    lemma_shares_grow(less_by(x, (1, 1)), less_by(y, (1, 1)), ONE * u);
    let (s2, s) = (sunk(kb2, pb, qty), sunk(kb, pb, qty));
    let (c2, c) = (cost(fees, roles.1, pm2, qty), cost(fees, roles.1, pm, qty));
    lemma_total_grows(s2, c2, s, c);
    lemma_less_by_grows(
        proceeds(fees, roles.0, k, qty),
        total(s, c),
        proceeds(fees, roles.0, k2, qty),
        total(s2, c2),
    );
    let (l, l2) = (
        locked(fees, roles, k, pm, kb, pb, qty),
        locked(fees, roles, k2, pm2, kb2, pb, qty),
    );
    lemma_shares_grow(l, l2, u);
    lemma_at_most_trans((floor as int, 1), shared(l, u), shared(l2, u));
}

// --------------------------------------------------------------- the least ask

proof fn lemma_climb_nets(
    fees: FeeSchedule,
    ladder: Seq<Rung>,
    k_role: Role,
    qty: i64,
    want: (int, int),
    k_basis: Px,
    pm_basis: Px,
    l: Px,
    n: nat,
)
    ensures
        climb(fees, ladder, k_role, qty, want, k_basis, pm_basis, l, n) matches Ok(p) ==> nets(
            fees,
            k_role,
            qty,
            want,
            p as int,
        ),
    decreases n,
{
    if n > 0 && !nets(fees, k_role, qty, want, l as int) {
        if let Some(step) = step_at(ladder, l) {
            if let Some(next) = tick_ceil(ladder, l + step, 1) {
                lemma_climb_nets(
                    fees,
                    ladder,
                    k_role,
                    qty,
                    want,
                    k_basis,
                    pm_basis,
                    next,
                    (n - 1) as nat,
                );
            }
        }
    }
}

pub proof fn lemma_nets_is_lock(
    fees: FeeSchedule,
    l: Px,
    k_basis: (int, int),
    pm_basis: (int, int),
    pm_close: (int, int),
    qty: i64,
    k_role: Role,
    pm_role: Role,
    floor: Px,
)
    requires
        proper(k_basis),
        proper(pm_basis),
        proper(pm_close),
        qty_ok(qty),
    ensures
        nets(
            fees,
            k_role,
            qty,
            wanted(fees, k_basis, pm_basis, pm_close, qty, pm_role, floor),
            l as int,
        ) <==> reaches(
            locked_ct(
                fees,
                (k_role, pm_role),
                dollars(l as int),
                pm_close,
                k_basis,
                pm_basis,
                qty,
            ),
            floor,
        ),
        proper(wanted(fees, k_basis, pm_basis, pm_close, qty, pm_role, floor)),
{
    let u = unit(qty);
    lemma_proper(fees, pm_role, pm_close, k_basis, pm_basis, qty);
    lemma_at_whole_millionths(fees, k_role, l as int, qty);
    let p = proceeds(fees, k_role, dollars(l as int), qty);
    let n = l * u - fees.fee_on(Venue::Kalshi, k_role, l as int, qty as int);
    let (s, c) = (sunk(k_basis, pm_basis, qty), cost(fees, pm_role, pm_close, qty));
    lemma_total_grows(s, c, s, c);
    let o = total(s, c);
    let (p1, o0, o1, f) = (p.1, o.0, o.1, floor as int);
    let g = n * o1 - o0 - (f * u) * o1;
    let (a, b) = (n * o1, (f * u) * o1);
    assert((n * p1) * o1 == p1 * (n * o1)) by (nonlinear_arith);
    assert(o0 * p1 == p1 * o0) by (nonlinear_arith);
    assert(f * ((p1 * o1) * u) == p1 * ((f * u) * o1)) by (nonlinear_arith);
    assert(p1 * (a - o0 - b) == p1 * a - p1 * o0 - p1 * b) by (nonlinear_arith);
    assert((n * p1) * o1 - o0 * p1 - f * ((p1 * o1) * u) == p1 * g);
    assert((p1 * g >= 0) == (g >= 0)) by (nonlinear_arith)
        requires
            p1 > 0,
    ;
    let w = wanted(fees, k_basis, pm_basis, pm_close, qty, pm_role, floor);
    assert(w == (o0 * 1 + (f * u) * o1, o1 * 1));
}

/// An ask that the search finds locks the floor: selling there and buying
/// back at the close price leaves at least `floor` a contract, net of both
/// fees and of what both legs cost.
///
/// Where the PM-US leg alone already pays for the lot the search takes the
/// lowest positive price, and the rounded-up Kalshi fee may exceed that price
/// on a ladder finer than a cent. There the law holds of an ask that covers
/// its own fee.
pub proof fn law_exit_limit_locks_the_floor(
    fees: FeeSchedule,
    ladder: Seq<Rung>,
    k_basis: (int, int),
    pm_basis: (int, int),
    pm_close: (int, int),
    qty: i64,
    k_role: Role,
    pm_role: Role,
    floor: Px,
    l: Px,
)
    requires
        proper(k_basis),
        proper(pm_basis),
        proper(pm_close),
        qty_ok(qty),
        least_ask(fees, ladder, k_basis, pm_basis, pm_close, qty, k_role, pm_role, floor) == Ok::<
            Px,
            PriceRefusal,
        >(l),
        wanted(fees, k_basis, pm_basis, pm_close, qty, pm_role, floor).0 > 0 || fees.fee_on(
            Venue::Kalshi,
            k_role,
            l as int,
            qty as int,
        ) <= l * unit(qty),
    ensures
        reaches(
            locked_ct(
                fees,
                (k_role, pm_role),
                dollars(l as int),
                pm_close,
                k_basis,
                pm_basis,
                qty,
            ),
            floor,
        ),
{
    let want = wanted(fees, k_basis, pm_basis, pm_close, qty, pm_role, floor);
    lemma_nets_is_lock(fees, l, k_basis, pm_basis, pm_close, qty, k_role, pm_role, floor);
    if want.0 > 0 {
        let first = tick_ceil(ladder, want.0, want.1 * unit(qty))->0;
        lemma_climb_nets(
            fees,
            ladder,
            k_role,
            qty,
            want,
            crate::pricing::six(k_basis),
            crate::pricing::six(pm_basis),
            first,
            MAX_TICK_WALK as nat,
        );
    } else {
        let n = l * unit(qty) - fees.fee_on(Venue::Kalshi, k_role, l as int, qty as int);
        assert(n * want.1 >= 0) by (nonlinear_arith)
            requires
                n >= 0,
                want.1 > 0,
        ;
    }
}

pub proof fn lemma_pennies(num: int, den: int)
    requires
        den > 0,
    ensures
        0 <= num < ONE * den ==> tick_ceil(pennies(), num, den) == Some(
            (ceil_div(num, CENT * den) * CENT) as i64,
        ),
        0 <= num < ONE * den ==> 0 <= ceil_div(num, CENT * den) * CENT <= ONE,
        !(0 <= num < ONE * den) ==> tick_ceil(pennies(), num, den) is None,
        ladder_ok(pennies()),
{
    let l = pennies();
    assert(l[0] == Rung { start: 0, end: ONE, step: CENT });
    assert(0 * den == 0) by (nonlinear_arith);
    assert(l.drop_first() =~= Seq::<Rung>::empty());
    assert(rung_at(l.drop_first(), num, den) is None);
    if 0 <= num < ONE * den {
        law_tick_ceil_is_tight(l, num, den);
        let b = CENT * den;
        lemma_ceil_div(num, b);
        let q = ceil_div(num, b);
        assert(q >= 0) by (nonlinear_arith)
            requires
                q * b >= num,
                num >= 0,
                b == 10_000 * den,
                den > 0,
        ;
        assert(q <= 100) by (nonlinear_arith)
            requires
                (q - 1) * b < num,
                num < 1_000_000 * den,
                b == 10_000 * den,
                den > 0,
        ;
    }
}

pub proof fn lemma_penny_step(l: Px)
    requires
        0 <= l <= ONE,
        l % CENT == 0,
    ensures
        l < ONE ==> step_at(pennies(), l) == Some(CENT),
        l == ONE ==> step_at(pennies(), l) is None,
        l + CENT < ONE ==> tick_ceil(pennies(), l + CENT, 1) == Some((l + CENT) as i64),
        l + CENT >= ONE ==> tick_ceil(pennies(), l + CENT, 1) is None,
{
    lemma_pennies(l as int, 1);
    lemma_pennies(l + CENT, 1);
    let p = pennies();
    assert(p[0] == Rung { start: 0, end: ONE, step: CENT });
    assert(p.drop_first() =~= Seq::<Rung>::empty());
    let k = (l + CENT) / CENT as int;
    assert(l + CENT == k * CENT);
    lemma_ceil_div(l + CENT, CENT * 1);
    let q = ceil_div(l + CENT, CENT * 1);
    assert(q == k) by (nonlinear_arith)
        requires
            q * 10_000 >= k * 10_000,
            (q - 1) * 10_000 < k * 10_000,
    ;
}

/// Whether no whole cent from nothing up to `l` nets `want`.
pub open spec fn none_below(fees: FeeSchedule, k_role: Role, qty: i64, want: (int, int), l: int) -> bool {
    forall|p: int|
        0 <= p < l && p % CENT as int == 0 ==> !#[trigger] nets(fees, k_role, qty, want, p)
}

proof fn lemma_climb_lowest(
    fees: FeeSchedule,
    k_role: Role,
    qty: i64,
    want: (int, int),
    k_basis: Px,
    pm_basis: Px,
    l: Px,
    n: nat,
)
    requires
        0 <= l <= ONE,
        l % CENT == 0,
        none_below(fees, k_role, qty, want, l as int),
    ensures
        climb(fees, pennies(), k_role, qty, want, k_basis, pm_basis, l, n) matches Ok(p) ==> {
            &&& 0 <= p <= ONE
            &&& p % CENT == 0
            &&& none_below(fees, k_role, qty, want, p as int)
        },
    decreases n,
{
    if n > 0 && !nets(fees, k_role, qty, want, l as int) && l < ONE {
        lemma_penny_step(l);
        if l + CENT < ONE {
            let next = (l + CENT) as i64;
            assert forall|p: int| 0 <= p < next && p % CENT as int == 0 implies !#[trigger] nets(
                fees,
                k_role,
                qty,
                want,
                p,
            ) by {
                if p >= l {
                    assert(p == l);
                }
            }
            lemma_climb_lowest(
                fees,
                k_role,
                qty,
                want,
                k_basis,
                pm_basis,
                next,
                (n - 1) as nat,
            );
        }
    } else if n > 0 && !nets(fees, k_role, qty, want, l as int) {
        lemma_penny_step(l);
    }
}

/// On a ladder of whole cents the ask that the search finds is the lowest
/// positive one that locks the floor, and it does lock it.
pub proof fn law_exit_limit_is_the_lowest_penny(
    fees: FeeSchedule,
    k_basis: (int, int),
    pm_basis: (int, int),
    pm_close: (int, int),
    qty: i64,
    k_role: Role,
    pm_role: Role,
    floor: Px,
    l: Px,
)
    requires
        fees.wf(),
        qty_ok(qty),
        proper(k_basis),
        proper(pm_basis),
        proper(pm_close),
        least_ask(fees, pennies(), k_basis, pm_basis, pm_close, qty, k_role, pm_role, floor)
            == Ok::<Px, PriceRefusal>(l),
    ensures
        0 < l <= ONE,
        l % CENT == 0,
        reaches(
            locked_ct(
                fees,
                (k_role, pm_role),
                dollars(l as int),
                pm_close,
                k_basis,
                pm_basis,
                qty,
            ),
            floor,
        ),
        forall|p: Px|
            0 < p < l && p % CENT == 0 ==> !reaches(
                #[trigger] locked_ct(
                    fees,
                    (k_role, pm_role),
                    dollars(p as int),
                    pm_close,
                    k_basis,
                    pm_basis,
                    qty,
                ),
                floor,
            ),
{
    let want = wanted(fees, k_basis, pm_basis, pm_close, qty, pm_role, floor);
    let u = unit(qty);
    let (w0, w1) = (want.0, want.1);
    lemma_nets_is_lock(fees, l, k_basis, pm_basis, pm_close, qty, k_role, pm_role, floor);
    if want.0 <= 0 {
        lemma_pennies(0, 1);
        lemma_ceil_div(0, CENT * 1);
        lemma_penny_step(0);
        assert(l == CENT);
        lemma_bottom_penny_pays_its_fee(fees, k_role, qty);
        let n = l * u - fees.fee_on(Venue::Kalshi, k_role, l as int, qty as int);
        assert(n * w1 >= 0) by (nonlinear_arith)
            requires
                n >= 0,
                w1 > 0,
        ;
        assert(nets(fees, k_role, qty, want, l as int));
    } else {
        let den = w1 * u;
        assert(den > 0) by (nonlinear_arith)
            requires
                den == w1 * u,
                w1 > 0,
                u > 0,
        ;
        assert(w0 < ONE * den) by (nonlinear_arith)
            requires
                w0 < ONE * u * w1,
                den == w1 * u,
        ;
        lemma_pennies(w0, den);
        let first = tick_ceil(pennies(), w0, den)->0;
        law_tick_ceil_is_tight(pennies(), w0, den);
        assert forall|p: int| 0 <= p < first && p % CENT as int == 0 implies !#[trigger] nets(
            fees,
            k_role,
            qty,
            want,
            p,
        ) by {
            law_fee_is_not_negative(fees, Venue::Kalshi, k_role, p, qty as int);
            assert(p <= first - CENT);
            let f = fees.fee_on(Venue::Kalshi, k_role, p, qty as int);
            let top = first - CENT;
            assert((p * u - f) * w1 <= top * den) by (nonlinear_arith)
                requires
                    p <= top,
                    f >= 0,
                    u > 0,
                    w1 > 0,
                    den == w1 * u,
            ;
        }
        lemma_climb_lowest(
            fees,
            k_role,
            qty,
            want,
            crate::pricing::six(k_basis),
            crate::pricing::six(pm_basis),
            first,
            MAX_TICK_WALK as nat,
        );
        lemma_climb_nets(
            fees,
            pennies(),
            k_role,
            qty,
            want,
            crate::pricing::six(k_basis),
            crate::pricing::six(pm_basis),
            first,
            MAX_TICK_WALK as nat,
        );
        assert(l > 0) by {
            if l == 0 {
                law_fee_is_not_negative(fees, Venue::Kalshi, k_role, 0, qty as int);
                assert(0 * u == 0);
                let f = fees.fee_on(Venue::Kalshi, k_role, 0, qty as int);
                assert((0 - f) * w1 <= 0) by (nonlinear_arith)
                    requires
                        f >= 0,
                        w1 > 0,
                ;
            }
        }
    }
    assert forall|p: Px| 0 < p < l && p % CENT == 0 implies !reaches(
        #[trigger] locked_ct(
            fees,
            (k_role, pm_role),
            dollars(p as int),
            pm_close,
            k_basis,
            pm_basis,
            qty,
        ),
        floor,
    ) by {
        lemma_nets_is_lock(fees, p, k_basis, pm_basis, pm_close, qty, k_role, pm_role, floor);
        assert(!nets(fees, k_role, qty, want, p as int));
    }
}

proof fn lemma_bottom_penny_pays_its_fee(fees: FeeSchedule, k_role: Role, qty: i64)
    requires
        fees.wf(),
        qty_ok(qty),
    ensures
        fees.fee_on(Venue::Kalshi, k_role, CENT as int, qty as int) <= CENT * unit(qty),
{
    let q = qty as int;
    let rate = fees.rate(Venue::Kalshi, k_role);
    let a = CENT * (ONE - CENT);
    let t = fees.unrounded(Venue::Kalshi, k_role, CENT as int, q);
    let c = crate::money::FINE_CENT as int;
    assert(t <= 9_900_000_000_000 * q) by (nonlinear_arith)
        requires
            t == rate * 9_900_000_000 * q,
            0 <= rate <= 1_000,
            q >= 1,
    ;
    lemma_ceil_div(t, c);
    let n = ceil_div(t, c);
    // A whole number of cents below the contracts' own cents, plus one.
    assert(n <= q) by (nonlinear_arith)
        requires
            (n - 1) * c < t,
            t <= 9_900_000_000_000 * q,
            c == 100_000_000_000_000,
            q >= 1,
    ;
    assert(n * c <= CENT * unit(qty)) by (nonlinear_arith)
        requires
            n <= q,
            c == 100_000_000_000_000,
            CENT * unit(qty) == 10_000 * (q * 10_000_000_000),
    ;
}

// ------------------------------------------------------------- the dearest close

/// A close within what is allowed is one that locks the floor.
pub proof fn lemma_cost_is_lock(
    fees: FeeSchedule,
    p: Px,
    k_fill: (int, int),
    k_basis: (int, int),
    pm_basis: (int, int),
    qty: i64,
    k_role: Role,
    pm_role: Role,
    floor: Px,
)
    requires
        proper(k_fill),
        proper(k_basis),
        proper(pm_basis),
        qty_ok(qty),
    ensures
        costs_within(
            fees,
            pm_role,
            qty,
            allowed(fees, k_fill, k_basis, pm_basis, qty, k_role, floor),
            p as int,
        ) <==> reaches(
            locked_ct(
                fees,
                (k_role, pm_role),
                k_fill,
                dollars(p as int),
                k_basis,
                pm_basis,
                qty,
            ),
            floor,
        ),
        proper(allowed(fees, k_fill, k_basis, pm_basis, qty, k_role, floor)),
{
    let u = unit(qty);
    lemma_proper(fees, k_role, k_fill, k_basis, pm_basis, qty);
    lemma_at_whole_millionths(fees, pm_role, p as int, qty);
    let x = cost(fees, pm_role, dollars(p as int), qty);
    let n = p * u + fees.fee_on(Venue::PolymarketUs, pm_role, p as int, qty as int);
    let (s, b) = (sunk(k_basis, pm_basis, qty), proceeds(fees, k_role, k_fill, qty));
    let (s0, s1, b0, b1, x1, f) = (s.0, s.1, b.0, b.1, x.1, floor as int);
    let t = b1 * s1;
    assert(t > 0) by (nonlinear_arith)
        requires
            t == b1 * s1,
            b1 > 0,
            s1 > 0,
    ;
    let cap = allowed(fees, k_fill, k_basis, pm_basis, qty, k_role, floor);
    assert(cap == (b0 * (s1 * 1) - (s0 * 1 + (f * u) * s1) * b1, b1 * (s1 * 1)));
    let m = b0 * s1 - s0 * b1;
    let fu = f * u;
    let fs = fu * s1;
    assert(s1 * 1 == s1 && s0 * 1 == s0);
    assert((s0 + fs) * b1 == s0 * b1 + fs * b1) by (nonlinear_arith);
    assert((fu * s1) * b1 == fu * (b1 * s1)) by (nonlinear_arith);
    assert(cap.0 == m - fu * t);
    let l = locked(fees, (k_role, pm_role), k_fill, dollars(p as int), k_basis, pm_basis, qty);
    assert(l.0 == b0 * (s1 * x1) - (s0 * x1 + (n * x1) * s1) * b1);
    assert(l.1 == b1 * (s1 * x1));
    let (d, e) = (s0 * x1, (n * x1) * s1);
    assert((d + e) * b1 == d * b1 + e * b1) by (nonlinear_arith);
    assert(b0 * (s1 * x1) == x1 * (b0 * s1)) by (nonlinear_arith);
    assert((s0 * x1) * b1 == x1 * (s0 * b1)) by (nonlinear_arith);
    assert(((n * x1) * s1) * b1 == x1 * (n * (b1 * s1))) by (nonlinear_arith);
    let (bs, sb, nt) = (b0 * s1, s0 * b1, n * t);
    assert(x1 * (bs - sb - nt) == x1 * bs - x1 * sb - x1 * nt) by (nonlinear_arith);
    assert(l.0 == x1 * (m - nt));
    let w = b1 * (s1 * x1);
    assert(f * (w * u) == (f * u) * w) by (nonlinear_arith);
    assert(b1 * (s1 * x1) == x1 * (b1 * s1)) by (nonlinear_arith);
    assert(fu * (x1 * t) == x1 * (fu * t)) by (nonlinear_arith);
    assert(f * (l.1 * u) == x1 * (fu * t));
    let ft = fu * t;
    let g = m - nt - ft;
    let h = m - nt;
    assert(x1 * h - x1 * ft == x1 * (h - ft)) by (nonlinear_arith);
    assert((x1 * g >= 0) == (g >= 0)) by (nonlinear_arith)
        requires
            x1 > 0,
    ;
}

/// Whether no whole cent above `p` and up to a dollar costs at most `cap`.
pub open spec fn none_above(
    fees: FeeSchedule,
    pm_role: Role,
    qty: i64,
    cap: (int, int),
    p: int,
) -> bool {
    forall|x: int|
        p < x <= ONE && x % CENT as int == 0 ==> !#[trigger] costs_within(
            fees,
            pm_role,
            qty,
            cap,
            x,
        )
}

proof fn lemma_descend(
    fees: FeeSchedule,
    pm_role: Role,
    qty: i64,
    cap: (int, int),
    k_fill: Px,
    p: Px,
    n: nat,
)
    requires
        p % CENT == 0,
        none_above(fees, pm_role, qty, cap, p as int),
    ensures
        descend(fees, pm_role, qty, cap, k_fill, p, n) matches Ok(x) ==> {
            &&& 0 < x <= p
            &&& x % CENT == 0
            &&& costs_within(fees, pm_role, qty, cap, x as int)
            &&& none_above(fees, pm_role, qty, cap, x as int)
        },
    decreases n,
{
    if n > 0 && p > 0 && !costs_within(fees, pm_role, qty, cap, p as int) {
        let next = (p - CENT) as i64;
        assert forall|x: int| next < x <= ONE && x % CENT as int == 0 implies !#[trigger]
            costs_within(fees, pm_role, qty, cap, x) by {
            if x <= p {
                assert(x == p);
            }
        }
        lemma_descend(fees, pm_role, qty, cap, k_fill, next, (n - 1) as nat);
    }
}

/// The close price that the search finds is a whole cent that locks the
/// floor, and no dearer cent up to a dollar does.
pub proof fn law_close_limit_is_the_highest_penny(
    fees: FeeSchedule,
    k_fill: (int, int),
    k_basis: (int, int),
    pm_basis: (int, int),
    qty: i64,
    k_role: Role,
    pm_role: Role,
    floor: Px,
    p: Px,
)
    requires
        fees.wf(),
        qty_ok(qty),
        proper(k_fill),
        proper(k_basis),
        proper(pm_basis),
        dearest_close(fees, k_fill, k_basis, pm_basis, qty, k_role, pm_role, floor) == Ok::<
            Px,
            PriceRefusal,
        >(p),
    ensures
        p > 0,
        p % CENT == 0,
        reaches(
            locked_ct(
                fees,
                (k_role, pm_role),
                k_fill,
                dollars(p as int),
                k_basis,
                pm_basis,
                qty,
            ),
            floor,
        ),
        forall|x: Px|
            p < x <= ONE && x % CENT == 0 ==> !reaches(
                #[trigger] locked_ct(
                    fees,
                    (k_role, pm_role),
                    k_fill,
                    dollars(x as int),
                    k_basis,
                    pm_basis,
                    qty,
                ),
                floor,
            ),
{
    let cap = allowed(fees, k_fill, k_basis, pm_basis, qty, k_role, floor);
    let u = unit(qty);
    lemma_cost_is_lock(fees, p, k_fill, k_basis, pm_basis, qty, k_role, pm_role, floor);
    lemma_free_bound(cap, qty);
    let top = free_bound(cap, qty);
    assert forall|x: int| top < x <= ONE && x % CENT as int == 0 implies !#[trigger] costs_within(
        fees,
        pm_role,
        qty,
        cap,
        x,
    ) by {
        law_fee_is_not_negative(fees, Venue::PolymarketUs, pm_role, x, qty as int);
        assert(x >= top + CENT);
        let f = fees.fee_on(Venue::PolymarketUs, pm_role, x, qty as int);
        let (y, c1) = (top + CENT, cap.1);
        assert((y * u) * c1 <= (x * u + f) * c1) by (nonlinear_arith)
            requires
                x >= y,
                f >= 0,
                u > 0,
                c1 > 0,
        ;
    }
    lemma_descend(
        fees,
        pm_role,
        qty,
        cap,
        crate::pricing::six(k_fill),
        top as i64,
        MAX_TICK_WALK as nat,
    );
    assert forall|x: Px| p < x <= ONE && x % CENT == 0 implies !reaches(
        #[trigger] locked_ct(
            fees,
            (k_role, pm_role),
            k_fill,
            dollars(x as int),
            k_basis,
            pm_basis,
            qty,
        ),
        floor,
    ) by {
        lemma_cost_is_lock(fees, x, k_fill, k_basis, pm_basis, qty, k_role, pm_role, floor);
        assert(!costs_within(fees, pm_role, qty, cap, x as int));
    }
}

// ------------------------------------------------------------- where to rest

/// A resting ask is never under its floor, strictly above the bid, so that a
/// post-only order cannot be rejected for crossing, and under a dollar.
pub proof fn law_a_resting_ask_is_a_maker(
    ladder: Seq<Rung>,
    floor: Px,
    bid: Option<(int, int)>,
    ask: Option<(int, int)>,
    p: Px,
)
    requires
        ladder_ok(ladder),
        bid matches Some(b) ==> proper(b),
        ask matches Some(a) ==> proper(a),
        resting_ask(ladder, floor, bid, ask) == Ok::<Px, PriceRefusal>(p),
    ensures
        p >= floor,
        p < ONE,
        bid matches Some(b) ==> below(micro(b), (p as int, 1)),
{
    let touch = higher(inside_ask(ladder, ask)->Ok_0, over_bid(ladder, bid)->Ok_0);
    if let Some(t) = touch {
        let best = if below(t, (floor as int, 1)) {
            (floor as int, 1int)
        } else {
            t
        };
        law_tick_ceil_is_tight(ladder, best.0, best.1);
        let (x, f, d) = (p as int, floor as int, best.1);
        assert(f * 1 == f);
        assert(best.0 * 1 >= f * d);
        assert(x >= f) by (nonlinear_arith)
            requires
                x * d >= best.0,
                best.0 >= f * d,
                d > 0,
        ;
    }
}

/// A resting bid is never above its ceiling and strictly below the ask. Where
/// there is a touch to price against it is positive.
pub proof fn law_a_resting_bid_is_a_maker(
    ceiling: Px,
    bid: Option<(int, int)>,
    ask: Option<(int, int)>,
    p: Px,
)
    requires
        -FARTHEST <= ceiling <= FARTHEST,
        bid matches Some(b) ==> proper(b),
        ask matches Some(a) ==> proper(a),
        resting_bid(ceiling, bid, ask) == Ok::<Px, PriceRefusal>(p),
    ensures
        p <= ceiling,
        ask matches Some(a) ==> below((p as int, 1), micro(a)),
        lower(inside_bid(bid), under_ask(ask)) is Some ==> p > 0,
{
    if let Some(t) = lower(inside_bid(bid), under_ask(ask)) {
        let best = if below((ceiling as int, 1), t) {
            (ceiling as int, 1int)
        } else {
            t
        };
        lemma_cents_below(best, ceiling as int);
    }
}

// -------------------------------------------------------- how the bounds move

proof fn lemma_ceil_shift(t: int, k: int, c: int)
    requires
        c > 0,
    ensures
        ceil_div(t + k * c, c) == ceil_div(t, c) + k,
{
    lemma_ceil_div(t, c);
    lemma_ceil_div(t + k * c, c);
    let a = ceil_div(t, c);
    let b = ceil_div(t + k * c, c);
    assert(b == a + k) by (nonlinear_arith)
        requires
            a * c >= t,
            (a - 1) * c < t,
            b * c >= t + k * c,
            (b - 1) * c < t + k * c,
            c > 0,
    ;
}

proof fn lemma_ceil_monotone(s: int, t: int, c: int)
    requires
        c > 0,
        s <= t,
    ensures
        ceil_div(s, c) <= ceil_div(t, c),
{
    lemma_ceil_div(s, c);
    lemma_ceil_div(t, c);
    let a = ceil_div(s, c);
    let b = ceil_div(t, c);
    assert(a <= b) by (nonlinear_arith)
        requires
            (a - 1) * c < s,
            b * c >= t,
            s <= t,
            c > 0,
    ;
}

proof fn lemma_unrounded_growth(fees: FeeSchedule, venue: Venue, role: Role, p: int, q: int, n: int)
    requires
        fees.wf(),
        0 <= p <= q <= ONE,
        n >= 1,
    ensures
        fees.unrounded(venue, role, q, n) - fees.unrounded(venue, role, p, n) <= (q - p) * (n
            * 1_000_000_000),
        fees.unrounded(venue, role, q, n) - fees.unrounded(venue, role, p, n) >= -((q - p) * (n
            * 1_000_000_000)),
{
    let rate = fees.rate(venue, role);
    let a = p * (ONE - p);
    let b = q * (ONE - q);
    let d = q - p;
    assert(b - a == d * (1_000_000 - p - q)) by (nonlinear_arith)
        requires
            a == p * (1_000_000 - p),
            b == q * (1_000_000 - q),
            d == q - p,
    ;
    let g = b - a;
    assert(-(d * 1_000_000) <= g <= d * 1_000_000) by (nonlinear_arith)
        requires
            g == d * (1_000_000 - p - q),
            d >= 0,
            0 <= p <= 1_000_000,
            0 <= q <= 1_000_000,
    ;
    let h = rate * b - rate * a;
    assert(h == rate * g) by (nonlinear_arith)
        requires
            h == rate * b - rate * a,
            g == b - a,
    ;
    assert(-(d * 1_000_000_000) <= h <= d * 1_000_000_000) by (nonlinear_arith)
        requires
            h == rate * g,
            0 <= rate <= 1_000,
            -(d * 1_000_000) <= g <= d * 1_000_000,
            d >= 0,
    ;
    let x = rate * b * n - rate * a * n;
    assert(x == h * n) by (nonlinear_arith)
        requires
            x == rate * b * n - rate * a * n,
            h == rate * b - rate * a,
    ;
    assert(-(d * (n * 1_000_000_000)) <= x <= d * (n * 1_000_000_000)) by (nonlinear_arith)
        requires
            x == h * n,
            -(d * 1_000_000_000) <= h <= d * 1_000_000_000,
            n >= 1,
    ;
}

/// A dearer whole cent nets no less: the Kalshi fee never eats the whole of a
/// step up, so a walk up the ladder ends at its first solution.
pub proof fn law_a_dearer_ask_nets_no_less(
    fees: FeeSchedule,
    role: Role,
    qty: i64,
    p: int,
    q: int,
)
    requires
        fees.wf(),
        qty_ok(qty),
        0 <= p <= q <= ONE,
        p % CENT as int == 0,
        q % CENT as int == 0,
    ensures
        q * unit(qty) - fees.fee_on(Venue::Kalshi, role, q, qty as int) >= p * unit(qty)
            - fees.fee_on(Venue::Kalshi, role, p, qty as int),
{
    let n = qty as int;
    let u = unit(qty);
    let c = crate::money::FINE_CENT as int;
    let s = fees.unrounded(Venue::Kalshi, role, p, n);
    let t = fees.unrounded(Venue::Kalshi, role, q, n);
    lemma_unrounded_growth(fees, Venue::Kalshi, role, p, q, n);
    let i = p / CENT as int;
    let j = q / CENT as int;
    assert(p == i * CENT && q == j * CENT);
    let k = (j - i) * n;
    assert(k * c == (q - p) * u) by (nonlinear_arith)
        requires
            k == (j - i) * n,
            c == 100_000_000_000_000,
            u == n * 10_000_000_000,
            p == i * 10_000,
            q == j * 10_000,
    ;
    assert((q - p) * (n * 1_000_000_000) <= (q - p) * u) by (nonlinear_arith)
        requires
            q >= p,
            u == n * 10_000_000_000,
            n >= 1,
    ;
    assert(t <= s + k * c);
    lemma_ceil_monotone(t, s + k * c, c);
    lemma_ceil_shift(s, k, c);
    let a = ceil_div(s, c);
    let b = ceil_div(t, c);
    assert(b * c <= a * c + k * c) by (nonlinear_arith)
        requires
            b <= a + k,
            c > 0,
    ;
    assert(q * u - p * u == (q - p) * u) by (nonlinear_arith);
}

/// A dearer whole cent brings no less, net of the Kalshi fee.
pub proof fn lemma_dearer_ask(fees: FeeSchedule, role: Role, qty: i64, p: int, q: int)
    requires
        fees.wf(),
        qty_ok(qty),
        0 <= p <= q <= ONE,
        p % CENT as int == 0,
        q % CENT as int == 0,
    ensures
        at_most(proceeds(fees, role, dollars(p), qty), proceeds(fees, role, dollars(q), qty)),
{
    law_a_dearer_ask_nets_no_less(fees, role, qty, p, q);
    lemma_at_whole_millionths(fees, role, p, qty);
    lemma_at_whole_millionths(fees, role, q, qty);
    let (a, b) = (proceeds(fees, role, dollars(p), qty), proceeds(fees, role, dollars(q), qty));
    let m = p * unit(qty) - fees.fee_on(Venue::Kalshi, role, p, qty as int);
    let n = q * unit(qty) - fees.fee_on(Venue::Kalshi, role, q, qty as int);
    let (a1, b1) = (a.1, b.1);
    assert((m * a1) * b1 <= (n * b1) * a1) by (nonlinear_arith)
        requires
            m <= n,
            a1 > 0,
            b1 > 0,
    ;
}

/// What a close at a fraction `a / b` costs, on the denominator `d * d` that it
/// shares with another.
proof fn lemma_cost_on(
    fees: FeeSchedule,
    role: Role,
    qty: i64,
    x: (int, int),
    a: int,
    d: int,
    k: int,
    r: int,
)
    requires
        proper(x),
        d > 0,
        x.0 * d == a * x.1,
        k == ONE * unit(qty),
        r == fees.rate(Venue::PolymarketUs, role) * qty * (ONE * ONE),
    ensures
        cost(fees, role, x, qty).0 * (d * d) == (a * k * d + a * (d - a) * r) * cost(
            fees,
            role,
            x,
            qty,
        ).1,
{
    let (n, m) = x;
    let c = cost(fees, role, x, qty);
    assert(c.0 == (n * k) * (m * m) + ((n * (m - n)) * r) * m);
    assert(c.1 == m * (m * m));
    let z = (k * d) * (m * m);
    assert(((n * k) * (m * m)) * (d * d) == (n * d) * ((k * d) * (m * m))) by (nonlinear_arith);
    assert((a * k * d) * (m * (m * m)) == (a * m) * ((k * d) * (m * m))) by (nonlinear_arith);
    assert((n * d) * z == (a * m) * z);
    let (i, j) = (m - n, d - a);
    assert((m - n) * d == m * d - n * d) by (nonlinear_arith);
    assert((d - a) * m == m * d - a * m) by (nonlinear_arith);
    assert(i * d == j * m);
    assert((n * d) * (i * d) == (a * m) * (j * m));
    assert((((n * i) * r) * m) * (d * d) == ((n * d) * (i * d)) * (r * m)) by (nonlinear_arith);
    assert((a * j * r) * (m * (m * m)) == ((a * m) * (j * m)) * (r * m)) by (nonlinear_arith);
    let (e, f) = ((n * k) * (m * m), ((n * (m - n)) * r) * m);
    let (g, h) = (a * k * d, a * (d - a) * r);
    assert((e + f) * (d * d) == e * (d * d) + f * (d * d)) by (nonlinear_arith);
    let w = m * (m * m);
    assert((g + h) * w == g * w + h * w) by (nonlinear_arith);
}

/// A cheaper close costs no more, fee and all, at any price from nothing to a
/// dollar.
pub proof fn law_a_cheaper_close_costs_no_more(
    fees: FeeSchedule,
    role: Role,
    qty: i64,
    x: (int, int),
    y: (int, int),
)
    requires
        fees.wf(),
        qty_ok(qty),
        proper(x),
        proper(y),
        0 <= x.0,
        at_most(x, y),
        y.0 <= y.1,
    ensures
        at_most(cost(fees, role, x, qty), cost(fees, role, y, qty)),
{
    let (x0, x1, y0, y1) = (x.0, x.1, y.0, y.1);
    let (a, c, d) = (x0 * y1, y0 * x1, x1 * y1);
    let rate = fees.rate(Venue::PolymarketUs, role);
    let k = ONE * unit(qty);
    let r = rate * qty * (ONE * ONE);
    let q = qty as int;
    assert(d > 0 && 0 <= a && c <= d) by (nonlinear_arith)
        requires
            a == x0 * y1,
            c == y0 * x1,
            d == x1 * y1,
            x0 >= 0,
            x1 > 0,
            y1 > 0,
            y0 <= y1,
    ;
    assert(x0 * d == a * x1) by (nonlinear_arith)
        requires
            a == x0 * y1,
            d == x1 * y1,
    ;
    assert(y0 * d == c * y1) by (nonlinear_arith)
        requires
            c == y0 * x1,
            d == x1 * y1,
    ;
    lemma_cost_on(fees, role, qty, x, a, d, k, r);
    lemma_cost_on(fees, role, qty, y, c, d, k, r);
    assert(0 <= r <= k) by (nonlinear_arith)
        requires
            r == rate * q * 1_000_000_000_000,
            k == 1_000_000 * (q * 10_000_000_000),
            0 <= rate <= 1_000,
            q >= 1,
    ;
    let g = a * k * d + a * (d - a) * r;
    let h = c * k * d + c * (d - c) * r;
    let z = k * d + (d - a - c) * r;
    let e = d - a - c;
    assert(c * k * d - a * k * d == (c - a) * (k * d)) by (nonlinear_arith);
    assert(c * (d - c) - a * (d - a) == (c - a) * (d - a - c)) by (nonlinear_arith);
    let (cc, aa) = (c * (d - c), a * (d - a));
    assert(cc * r - aa * r == (cc - aa) * r) by (nonlinear_arith);
    let ca = c - a;
    assert((ca * e) * r == ca * (e * r)) by (nonlinear_arith);
    let (kd, er) = (k * d, e * r);
    assert(ca * (kd + er) == ca * kd + ca * er) by (nonlinear_arith);
    assert(h - g == (c - a) * z);
    assert(-d <= e);
    assert(e * r >= -(d * r)) by (nonlinear_arith)
        requires
            e >= -d,
            r >= 0,
    ;
    assert(k * d >= d * r) by (nonlinear_arith)
        requires
            k >= r,
            d > 0,
    ;
    assert((c - a) * z >= 0) by (nonlinear_arith)
        requires
            c >= a,
            z >= 0,
    ;
    lemma_proper(fees, role, x, x, x, qty);
    lemma_proper(fees, role, y, y, y, qty);
    let (p, s) = (cost(fees, role, x, qty), cost(fees, role, y, qty));
    let (p0, p1, s0, s1, t) = (p.0, p.1, s.0, s.1, d * d);
    assert(t > 0) by (nonlinear_arith)
        requires
            t == d * d,
            d > 0,
    ;
    assert((p0 * s1) * t == (p0 * t) * s1) by (nonlinear_arith);
    assert((s0 * p1) * t == (s0 * t) * p1) by (nonlinear_arith);
    assert((g * p1) * s1 <= (h * s1) * p1) by (nonlinear_arith)
        requires
            g <= h,
            p1 > 0,
            s1 > 0,
    ;
    assert(p0 * s1 <= s0 * p1) by (nonlinear_arith)
        requires
            (p0 * s1) * t <= (s0 * p1) * t,
            t > 0,
    ;
}

/// On a ladder of whole cents the least ask never falls as the lot gets dearer
/// or the close does.
pub proof fn law_the_floor_rises_with_the_basis_and_the_close(
    fees: FeeSchedule,
    k_basis: (int, int),
    k_dearer: (int, int),
    pm_basis: (int, int),
    close: (int, int),
    close_dearer: (int, int),
    qty: i64,
    k_role: Role,
    pm_role: Role,
    floor: Px,
    l: Px,
    l_dearer: Px,
)
    requires
        fees.wf(),
        qty_ok(qty),
        proper(k_basis),
        proper(k_dearer),
        proper(pm_basis),
        proper(close),
        proper(close_dearer),
        at_most(k_basis, k_dearer),
        0 <= close.0,
        at_most(close, close_dearer),
        close_dearer.0 <= close_dearer.1,
        least_ask(fees, pennies(), k_basis, pm_basis, close, qty, k_role, pm_role, floor) == Ok::<
            Px,
            PriceRefusal,
        >(l),
        least_ask(
            fees,
            pennies(),
            k_dearer,
            pm_basis,
            close_dearer,
            qty,
            k_role,
            pm_role,
            floor,
        ) == Ok::<Px, PriceRefusal>(l_dearer),
    ensures
        l <= l_dearer,
{
    law_exit_limit_is_the_lowest_penny(
        fees,
        k_basis,
        pm_basis,
        close,
        qty,
        k_role,
        pm_role,
        floor,
        l,
    );
    law_exit_limit_is_the_lowest_penny(
        fees,
        k_dearer,
        pm_basis,
        close_dearer,
        qty,
        k_role,
        pm_role,
        floor,
        l_dearer,
    );
    law_a_cheaper_close_costs_no_more(fees, pm_role, qty, close, close_dearer);
    let p = l_dearer;
    lemma_lock_grows(
        fees,
        (k_role, pm_role),
        dollars(p as int),
        close_dearer,
        k_dearer,
        pm_basis,
        dollars(p as int),
        close,
        k_basis,
        qty,
        floor,
    );
    assert(reaches(
        locked_ct(fees, (k_role, pm_role), dollars(p as int), close, k_basis, pm_basis, qty),
        floor,
    ));
}

/// A better sale of the Kalshi leg never lowers what the close may pay, up to
/// a dollar.
pub proof fn law_a_better_fill_buys_more_room(
    fees: FeeSchedule,
    k_fill: Px,
    k_better: Px,
    k_basis: (int, int),
    pm_basis: (int, int),
    qty: i64,
    k_role: Role,
    pm_role: Role,
    floor: Px,
    p: Px,
    p_better: Px,
)
    requires
        fees.wf(),
        qty_ok(qty),
        0 <= k_fill <= k_better <= ONE,
        k_fill % CENT == 0,
        k_better % CENT == 0,
        proper(k_basis),
        proper(pm_basis),
        dearest_close(
            fees,
            dollars(k_fill as int),
            k_basis,
            pm_basis,
            qty,
            k_role,
            pm_role,
            floor,
        ) == Ok::<Px, PriceRefusal>(p),
        dearest_close(
            fees,
            dollars(k_better as int),
            k_basis,
            pm_basis,
            qty,
            k_role,
            pm_role,
            floor,
        ) == Ok::<Px, PriceRefusal>(p_better),
        p <= ONE,
    ensures
        p <= p_better,
{
    let (k, b) = (dollars(k_fill as int), dollars(k_better as int));
    law_close_limit_is_the_highest_penny(
        fees,
        k,
        k_basis,
        pm_basis,
        qty,
        k_role,
        pm_role,
        floor,
        p,
    );
    law_close_limit_is_the_highest_penny(
        fees,
        b,
        k_basis,
        pm_basis,
        qty,
        k_role,
        pm_role,
        floor,
        p_better,
    );
    lemma_dearer_ask(fees, k_role, qty, k_fill as int, k_better as int);
    lemma_lock_grows(
        fees,
        (k_role, pm_role),
        k,
        dollars(p as int),
        k_basis,
        pm_basis,
        b,
        dollars(p as int),
        k_basis,
        qty,
        floor,
    );
    assert(reaches(
        locked_ct(fees, (k_role, pm_role), b, dollars(p as int), k_basis, pm_basis, qty),
        floor,
    ));
}

} // verus!
