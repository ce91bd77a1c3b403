//! What an exit locks, and that every price of an exit is held to it.
use crate::fees::FeeSchedule;
use crate::money::{ceil_div, lemma_ceil_div, qty_ok, unit, Px};
use crate::pricing::{cost, locked_ct, proceeds, proper, reaches, sunk};
use crate::pricing_laws::lemma_at_whole_millionths;
use crate::ratio::dollars;
use crate::venue::{Role, Venue};
use vstd::prelude::*;

verus! {

/// The only whole number of cents that covers a fee with less than a cent to
/// spare.
proof fn lemma_cents_that_cover(t: int, cents: int)
    requires
        (cents - 1) * 100_000_000_000_000 < t <= cents * 100_000_000_000_000,
    ensures
        ceil_div(t, 100_000_000_000_000) == cents,
{
    lemma_ceil_div(t, 100_000_000_000_000);
}

/// What both legs cost, over the dollar that the pair pays out.
proof fn lemma_sunk(kb: int, pb: int, qty: i64)
    ensures
        sunk(dollars(kb), dollars(pb), qty).1 == 1_000_000_000_000,
        sunk(dollars(kb), dollars(pb), qty).0 == ((kb + pb - 1_000_000) * unit(qty))
            * 1_000_000_000_000,
{
    let u = unit(qty);
    let s = kb + pb - 1_000_000;
    let x = kb * 1_000_000 + pb * 1_000_000;
    assert(x * 1 - 1 * (1_000_000 * 1_000_000) == s * 1_000_000);
    assert((s * 1_000_000) * (1_000_000 * u) == (s * u) * 1_000_000_000_000) by (nonlinear_arith);
}

/// An exit locks, of the dollar that the pair pays out and of what the Kalshi
/// contracts bring, what the PM-US contracts, the two bases and the two fees
/// leave. Each fee is its venue's rate for the part that the leg plays, times
/// the price, times what the price leaves of a dollar, for each contract; at
/// Kalshi the whole leg is charged the `cents` that cover it. It reaches a floor
/// if that is left on every contract.
pub proof fn law_a_lock_is_what_the_fees_and_the_bases_leave(
    fees: FeeSchedule,
    k_role: Role,
    pm_role: Role,
    k: int,
    pm: int,
    kb: int,
    pb: int,
    qty: i64,
    cents: int,
    floor: Px,
)
    requires
        qty_ok(qty),
        ({
            let rate = if k_role == Role::Maker {
                fees.kalshi_maker as int
            } else {
                fees.kalshi_taker as int
            };
            (cents - 1) * 100_000_000_000_000 < rate * (k * (1_000_000 - k)) * qty <= cents
                * 100_000_000_000_000
        }),
    ensures
        ({
            let rate = if pm_role == Role::Maker {
                fees.pmus_maker as int
            } else {
                fees.pmus_taker as int
            };
            let lock = locked_ct(
                fees,
                (k_role, pm_role),
                dollars(k),
                dollars(pm),
                dollars(kb),
                dollars(pb),
                qty,
            );
            let left = (k + 1_000_000 - pm - kb - pb) * (qty * 10_000_000_000) - cents
                * 100_000_000_000_000 - rate * (pm * (1_000_000 - pm)) * qty;
            &&& proper(lock)
            &&& lock.0 * (qty * 10_000_000_000) == lock.1 * left
            &&& reaches(lock, floor) <==> floor * (qty * 10_000_000_000) <= left
        }),
{
    let u = unit(qty);
    assert(u == qty * 10_000_000_000);
    lemma_at_whole_millionths(fees, k_role, k, qty);
    lemma_at_whole_millionths(fees, pm_role, pm, qty);
    lemma_sunk(kb, pb, qty);
    lemma_cents_that_cover(fees.unrounded(Venue::Kalshi, k_role, k, qty as int), cents);
    let kk = proceeds(fees, k_role, dollars(k), qty);
    let cc = cost(fees, pm_role, dollars(pm), qty);
    let ss = sunk(dollars(kb), dollars(pb), qty);
    let f = fees.fee_on(Venue::Kalshi, k_role, k, qty as int);
    let g = fees.fee_on(Venue::PolymarketUs, pm_role, pm, qty as int);
    assert(f == cents * 100_000_000_000_000);
    let a = k * u - f;
    let b = pm * u + g;
    let s = (kb + pb - 1_000_000) * u;
    let (k1, c1, s1) = (kk.1, cc.1, ss.1);
    let t1 = s1 * c1;
    assert(s1 * c1 > 0) by (nonlinear_arith)
        requires
            s1 > 0,
            c1 > 0,
    ;
    assert((s * s1) * c1 == s * t1) by (nonlinear_arith)
        requires
            t1 == s1 * c1,
    ;
    assert((b * c1) * s1 == b * t1) by (nonlinear_arith)
        requires
            t1 == s1 * c1,
    ;
    assert((s + b) * t1 == s * t1 + b * t1) by (nonlinear_arith);
    let d = k1 * t1;
    assert(d > 0) by (nonlinear_arith)
        requires
            d == k1 * t1,
            k1 > 0,
            t1 > 0,
    ;
    assert((a * k1) * t1 == a * d) by (nonlinear_arith)
        requires
            d == k1 * t1,
    ;
    let sb = s + b;
    assert((sb * t1) * k1 == sb * d) by (nonlinear_arith)
        requires
            d == k1 * t1,
    ;
    assert((a - sb) * d == a * d - sb * d) by (nonlinear_arith);
    let left = (k + 1_000_000 - pm - kb - pb) * u - f - g;
    assert(left == a - sb) by (nonlinear_arith)
        requires
            left == (k + 1_000_000 - pm - kb - pb) * u - f - g,
            a == k * u - f,
            sb == (kb + pb - 1_000_000) * u + (pm * u + g),
    ;
    let lock = locked_ct(
        fees,
        (k_role, pm_role),
        dollars(k),
        dollars(pm),
        dollars(kb),
        dollars(pb),
        qty,
    );
    assert(lock.0 == left * d);
    assert(lock.1 == d * u);
    assert((left * d) * u == (d * u) * left) by (nonlinear_arith);
    assert(d * u > 0) by (nonlinear_arith)
        requires
            d > 0,
            u > 0,
    ;
    let fl = floor as int;
    assert(lock.0 * 1 == lock.0);
    assert(left * d < fl * (d * u) <==> left < fl * u) by (nonlinear_arith)
        requires
            d > 0,
    ;
}

/// A fee is charged on the price times what it leaves of a dollar, at any price: at
/// PM-US the rate of the part that the leg plays, on every contract; at Kalshi the
/// least number of cents that covers that for the whole leg.
pub proof fn law_a_fee_is_the_rate_on_what_is_at_stake(
    fees: FeeSchedule,
    role: Role,
    x: (int, int),
    qty: int,
    cents: int,
)
    requires
        proper(x),
    ensures
        ({
            let rate = if role == Role::Maker {
                fees.pmus_maker as int
            } else {
                fees.pmus_taker as int
            };
            let fee = fees.charge_on(Venue::PolymarketUs, role, x, qty);
            &&& proper(fee)
            &&& fee.0 * (x.1 * x.1) == ((x.0 * (x.1 - x.0)) * (rate * qty * 1_000_000_000_000))
                * fee.1
        }),
        ({
            let rate = if role == Role::Maker {
                fees.kalshi_maker as int
            } else {
                fees.kalshi_taker as int
            };
            let due = (x.0 * (x.1 - x.0)) * (rate * qty * 1_000_000_000_000);
            let fee = fees.charge_on(Venue::Kalshi, role, x, qty);
            &&& proper(fee)
            &&& (cents - 1) * ((x.1 * x.1) * 100_000_000_000_000) < due && due <= cents * ((x.1
                * x.1) * 100_000_000_000_000) ==> fee.0 == (cents * 100_000_000_000_000) * fee.1
        }),
{
    let d = x.1 * x.1;
    assert(d > 0) by (nonlinear_arith)
        requires
            d == x.1 * x.1,
            x.1 > 0,
    ;
    let b = d * 100_000_000_000_000;
    let rate = if role == Role::Maker {
        fees.kalshi_maker as int
    } else {
        fees.kalshi_taker as int
    };
    let due = (x.0 * (x.1 - x.0)) * (rate * qty * 1_000_000_000_000);
    assert(fees.charge_on(Venue::Kalshi, role, x, qty) == (
        ceil_div(due, b) * 100_000_000_000_000,
        1int,
    ));
    if (cents - 1) * b < due && due <= cents * b {
        lemma_ceil_div(due, b);
        let q = ceil_div(due, b);
        assert(q == cents) by (nonlinear_arith)
            requires
                q * b >= due,
                (q - 1) * b < due,
                (cents - 1) * b < due,
                due <= cents * b,
                b > 0,
        ;
    }
}

/// What a contract locks falls by exactly what either leg cost more.
pub proof fn law_a_dearer_basis_locks_that_much_less(
    fees: FeeSchedule,
    roles: (Role, Role),
    k: int,
    pm: int,
    kb: int,
    pb: int,
    more: int,
    qty: i64,
    floor: Px,
)
    requires
        qty_ok(qty),
        i64::MIN <= floor + more <= i64::MAX,
    ensures
        ({
            let cheap = locked_ct(
                fees,
                roles,
                dollars(k),
                dollars(pm),
                dollars(kb),
                dollars(pb),
                qty,
            );
            let dear = locked_ct(
                fees,
                roles,
                dollars(k),
                dollars(pm),
                dollars(kb + more),
                dollars(pb),
                qty,
            );
            let other = locked_ct(
                fees,
                roles,
                dollars(k),
                dollars(pm),
                dollars(kb),
                dollars(pb + more),
                qty,
            );
            &&& reaches(cheap, (floor + more) as i64) <==> reaches(dear, floor)
            &&& reaches(dear, floor) <==> reaches(other, floor)
        }),
{
    let rate = if roles.0 == Role::Maker {
        fees.kalshi_maker as int
    } else {
        fees.kalshi_taker as int
    };
    let t = rate * (k * (1_000_000 - k)) * qty;
    let cents = ceil_div(t, 100_000_000_000_000);
    lemma_ceil_div(t, 100_000_000_000_000);
    law_a_lock_is_what_the_fees_and_the_bases_leave(
        fees,
        roles.0,
        roles.1,
        k,
        pm,
        kb,
        pb,
        qty,
        cents,
        (floor + more) as i64,
    );
    law_a_lock_is_what_the_fees_and_the_bases_leave(
        fees,
        roles.0,
        roles.1,
        k,
        pm,
        kb + more,
        pb,
        qty,
        cents,
        floor,
    );
    law_a_lock_is_what_the_fees_and_the_bases_leave(
        fees,
        roles.0,
        roles.1,
        k,
        pm,
        kb,
        pb + more,
        qty,
        cents,
        floor,
    );
    let u = qty * 10_000_000_000;
    let a = k + 1_000_000 - pm - kb - pb;
    assert((a - more) * u == a * u - more * u) by (nonlinear_arith);
    assert((floor + more) * u == floor * u + more * u) by (nonlinear_arith);
}

} // verus!
