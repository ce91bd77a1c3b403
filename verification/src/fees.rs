//! What the venues charge.
//!
//! A fee is quadratic in the price: a rate times `p * (1 - p)` for each
//! contract. Kalshi rounds the total of a leg up to the cent; PM-US charges
//! takers exactly and makers nothing.
use crate::money::{
    ceil_div, ceil_quotient, lemma_ceil_div, qty_ok, wide_ok, Px, FINE_CENT, ONE, QTY_MAX,
    WIDE_MAX,
};
use crate::decimal::Ratio;
use crate::ratio::{dollars, scaled, spread};
use crate::venue::{Role, Venue};
use vstd::prelude::*;

verus! {

/// The largest rate that the arithmetic takes, ten per cent.
pub const RATE_MAX: i64 = 1_000;

/// A bound on every fee, in fine units.
pub const FEE_MAX: i128 = 2_000_000_000_000_000_000_000_000_000_000_000_000;

/// The rates of both venues, in ten-thousandths.
#[derive(Clone, Copy, Debug, PartialEq, Eq, Structural)]
pub struct FeeSchedule {
    pub kalshi_maker: i64,
    pub kalshi_taker: i64,
    pub pmus_maker: i64,
    pub pmus_taker: i64,
}

impl FeeSchedule {
    /// The rates in force: 0.0175 and 0.07 at Kalshi, nothing and 0.06 at PM-US.
    pub fn new() -> (r: FeeSchedule)
        ensures
            r == in_force(),
            r.wf(),
    {
        FeeSchedule { kalshi_maker: 175, kalshi_taker: 700, pmus_maker: 0, pmus_taker: 600 }
    }

    /// Rates within range.
    pub open spec fn wf(self) -> bool {
        &&& 0 <= self.kalshi_maker <= RATE_MAX
        &&& 0 <= self.kalshi_taker <= RATE_MAX
        &&& 0 <= self.pmus_maker <= RATE_MAX
        &&& 0 <= self.pmus_taker <= RATE_MAX
    }

    /// The rate of a role at a venue.
    pub open spec fn rate(self, venue: Venue, role: Role) -> int {
        match (venue, role) {
            (Venue::Kalshi, Role::Maker) => self.kalshi_maker as int,
            (Venue::Kalshi, Role::Taker) => self.kalshi_taker as int,
            (Venue::PolymarketUs, Role::Maker) => self.pmus_maker as int,
            (Venue::PolymarketUs, Role::Taker) => self.pmus_taker as int,
        }
    }

    /// The fee on `qty` contracts at price `p`, before any rounding, in fine
    /// units.
    pub open spec fn unrounded(self, venue: Venue, role: Role, p: int, qty: int) -> int {
        self.rate(venue, role) * (p * (ONE - p)) * qty
    }

    /// The fee on a leg of `qty` contracts at price `p`, in fine units.
    pub open spec fn fee_on(self, venue: Venue, role: Role, p: int, qty: int) -> int {
        match venue {
            Venue::Kalshi => ceil_div(self.unrounded(venue, role, p, qty), FINE_CENT as int)
                * FINE_CENT,
            Venue::PolymarketUs => self.unrounded(venue, role, p, qty),
        }
    }

    /// The fee on a leg of `qty` contracts at a price that is any fraction of a
    /// dollar, in fine units.
    pub open spec fn charge_on(self, venue: Venue, role: Role, x: (int, int), qty: int) -> (
        int,
        int,
    ) {
        let exact = scaled(spread(x), self.rate(venue, role) * qty * (ONE * ONE));
        match venue {
            Venue::Kalshi => (
                ceil_div(exact.0, exact.1 * FINE_CENT) * FINE_CENT,
                1,
            ),
            Venue::PolymarketUs => exact,
        }
    }

    /// The fee on a whole leg at any price, in fine units.
    pub fn charge(&self, venue: Venue, role: Role, x: &Ratio, qty: i64) -> (r: Ratio)
        requires
            self.wf(),
            x.wf(),
            qty_ok(qty),
        ensures
            r.wf(),
            r.at() == self.charge_on(venue, role, x.at(), qty as int),
    {
        let rate: i64 = self.rate_of(venue, role);
        proof {
            let (a, b) = (rate as int, qty as int);
            assert(0 <= a * b <= 1_000_000_000_000) by (nonlinear_arith)
                requires
                    0 <= a <= 1_000,
                    1 <= b <= 1_000_000_000,
            ;
        }
        let each: i64 = rate * qty;
        let exact: Ratio = x.spread().scaled((each as u128) * 1_000_000_000_000);
        match venue {
            Venue::Kalshi => exact.shared(FINE_CENT as u128).ceiling().scaled(FINE_CENT as u128),
            Venue::PolymarketUs => exact,
        }
    }

    fn rate_of(&self, venue: Venue, role: Role) -> (r: i64)
        requires
            self.wf(),
        ensures
            r == self.rate(venue, role),
            0 <= r <= RATE_MAX,
    {
        match (venue, role) {
            (Venue::Kalshi, Role::Maker) => self.kalshi_maker,
            (Venue::Kalshi, Role::Taker) => self.kalshi_taker,
            (Venue::PolymarketUs, Role::Maker) => self.pmus_maker,
            (Venue::PolymarketUs, Role::Taker) => self.pmus_taker,
        }
    }

    /// The fee on a whole leg, in fine units.
    pub fn fee(&self, venue: Venue, role: Role, p: Px, qty: i64) -> (r: i128)
        requires
            self.wf(),
            wide_ok(p),
            qty_ok(qty),
        ensures
            r == self.fee_on(venue, role, p as int, qty as int),
            -FEE_MAX <= r <= FEE_MAX,
    {
        let rate: i64 = self.rate_of(venue, role);
        proof {
            lemma_unrounded_bounds(rate as int, p as int, qty as int);
        }
        let product: i128 = (p as i128) * (ONE as i128 - p as i128);
        let scaled: i128 = (rate as i128) * product;
        let total: i128 = scaled * (qty as i128);
        match venue {
            Venue::Kalshi => {
                proof {
                    lemma_ceil_div(total as int, FINE_CENT as int);
                }
                ceil_quotient(total, FINE_CENT) * FINE_CENT
            },
            Venue::PolymarketUs => total,
        }
    }
}

/// The rates in force.
pub open spec fn in_force() -> FeeSchedule {
    FeeSchedule { kalshi_maker: 175, kalshi_taker: 700, pmus_maker: 0, pmus_taker: 600 }
}

proof fn lemma_unrounded_bounds(rate: int, p: int, qty: int)
    requires
        0 <= rate <= RATE_MAX,
        -WIDE_MAX <= p <= WIDE_MAX,
        1 <= qty <= QTY_MAX,
    ensures
        -1_000_001_000_000_000_000_000_000 <= p * (ONE - p) <= 1_000_001_000_000_000_000_000_000,
        -1_000_001_000_000_000_000_000_000_000 <= rate * (p * (ONE - p))
            <= 1_000_001_000_000_000_000_000_000_000,
        -1_000_001_000_000_000_000_000_000_000_000_000_000 <= rate * (p * (ONE - p)) * qty
            <= 1_000_001_000_000_000_000_000_000_000_000_000_000,
{
    let a = p * (ONE - p);
    assert(-1_000_001_000_000_000_000_000_000 <= a <= 1_000_001_000_000_000_000_000_000)
        by (nonlinear_arith)
        requires
            a == p * (1_000_000 - p),
            -1_000_000_000_000 <= p <= 1_000_000_000_000,
    ;
    let b = rate * a;
    assert(-1_000_001_000_000_000_000_000_000_000 <= b <= 1_000_001_000_000_000_000_000_000_000)
        by (nonlinear_arith)
        requires
            b == rate * a,
            0 <= rate <= 1_000,
            -1_000_001_000_000_000_000_000_000 <= a <= 1_000_001_000_000_000_000_000_000,
    ;
    let c = b * qty;
    assert(-1_000_001_000_000_000_000_000_000_000_000_000_000 <= c
        <= 1_000_001_000_000_000_000_000_000_000_000_000_000) by (nonlinear_arith)
        requires
            c == b * qty,
            1 <= qty <= 1_000_000_000,
            -1_000_001_000_000_000_000_000_000_000 <= b <= 1_000_001_000_000_000_000_000_000_000,
    ;
}

/// At a price between nothing and a dollar no fee is negative.
pub proof fn law_fee_is_not_negative(f: FeeSchedule, venue: Venue, role: Role, p: int, qty: int)
    requires
        f.wf(),
        0 <= p <= ONE,
        qty >= 0,
    ensures
        f.fee_on(venue, role, p, qty) >= 0,
{
    let rate = f.rate(venue, role);
    let t = f.unrounded(venue, role, p, qty);
    let a = p * (ONE - p);
    assert(a >= 0) by (nonlinear_arith)
        requires
            a == p * (1_000_000 - p),
            0 <= p <= 1_000_000,
    ;
    let b = rate * a;
    assert(b >= 0) by (nonlinear_arith)
        requires
            b == rate * a,
            rate >= 0,
            a >= 0,
    ;
    assert(t >= 0) by (nonlinear_arith)
        requires
            t == b * qty,
            b >= 0,
            qty >= 0,
    ;
    lemma_ceil_div(t, FINE_CENT as int);
}

/// A ceiling is not moved by a factor on both sides.
proof fn lemma_ceil_scaled(a: int, b: int, k: int)
    requires
        b > 0,
        k > 0,
    ensures
        ceil_div(a * k, b * k) == ceil_div(a, b),
{
    assert(b * k > 0) by (nonlinear_arith)
        requires
            b > 0,
            k > 0,
    ;
    lemma_ceil_div(a, b);
    lemma_ceil_div(a * k, b * k);
    let (x, y) = (ceil_div(a, b), ceil_div(a * k, b * k));
    assert(x * (b * k) >= a * k && (x - 1) * (b * k) < a * k) by (nonlinear_arith)
        requires
            x * b >= a,
            (x - 1) * b < a,
            k > 0,
    ;
    let c = b * k;
    let d = a * k;
    assert(x == y) by (nonlinear_arith)
        requires
            x * c >= d,
            (x - 1) * c < d,
            y * c >= d,
            (y - 1) * c < d,
            c > 0,
    ;
}

/// At a whole number of millionths the two ways to say a fee agree.
pub proof fn law_a_charge_at_whole_millionths_is_the_fee(
    f: FeeSchedule,
    venue: Venue,
    role: Role,
    p: int,
    qty: int,
)
    ensures
        f.charge_on(venue, role, dollars(p), qty).1 > 0,
        f.charge_on(venue, role, dollars(p), qty).0 == f.fee_on(venue, role, p, qty) * f.charge_on(
            venue,
            role,
            dollars(p),
            qty,
        ).1,
{
    let rate = f.rate(venue, role);
    let t = f.unrounded(venue, role, p, qty);
    let a = p * (ONE - p);
    let k = rate * qty * (ONE * ONE);
    assert(a * k == t * (ONE * ONE)) by (nonlinear_arith)
        requires
            t == rate * a * qty,
            k == rate * qty * (ONE * ONE),
    ;
    assert(ONE * ONE == 1_000_000_000_000);
    if venue == Venue::Kalshi {
        lemma_ceil_scaled(t, FINE_CENT as int, 1_000_000_000_000);
    }
}

/// PM-US charges makers nothing under the rates in force.
pub proof fn law_pmus_makers_pay_nothing(p: int, qty: int)
    ensures
        in_force().fee_on(Venue::PolymarketUs, Role::Maker, p, qty) == 0,
{
    let a = p * (ONE - p);
    assert(0 * a * qty == 0) by (nonlinear_arith);
}

/// A Kalshi fee is a whole number of cents, less than a cent above the
/// unrounded one.
pub proof fn law_kalshi_fee_rounds_up_to_the_cent(f: FeeSchedule, role: Role, p: int, qty: int)
    ensures
        f.fee_on(Venue::Kalshi, role, p, qty) % FINE_CENT as int == 0,
        f.unrounded(Venue::Kalshi, role, p, qty) <= f.fee_on(Venue::Kalshi, role, p, qty)
            < f.unrounded(Venue::Kalshi, role, p, qty) + FINE_CENT,
{
    let t = f.unrounded(Venue::Kalshi, role, p, qty);
    lemma_ceil_div(t, FINE_CENT as int);
    vstd::arithmetic::div_mod::lemma_mod_multiples_basic(
        ceil_div(t, FINE_CENT as int),
        FINE_CENT as int,
    );
}

/// The bound on a fee at a quoted price, which is far below that of the
/// widest one.
pub proof fn lemma_fee_at(f: FeeSchedule, venue: Venue, role: Role, p: int, qty: int, max: int)
    requires
        f.wf(),
        -max <= p <= max,
        ONE <= max <= WIDE_MAX,
        1 <= qty <= QTY_MAX,
    ensures
        -((max * max + max * ONE) * RATE_MAX * qty) - FINE_CENT <= f.fee_on(venue, role, p, qty),
        f.fee_on(venue, role, p, qty) <= (max * max + max * ONE) * RATE_MAX * qty + FINE_CENT,
{
    let rate = f.rate(venue, role);
    let a = p * (ONE - p);
    let t = f.unrounded(venue, role, p, qty);
    let m = max * max + max * ONE;
    assert(-m <= a <= m) by (nonlinear_arith)
        requires
            a == p * (1_000_000 - p),
            m == max * max + max * 1_000_000,
            -max <= p <= max,
            1_000_000 <= max,
    ;
    let b = rate * a;
    assert(-(m * 1_000) <= b <= m * 1_000) by (nonlinear_arith)
        requires
            b == rate * a,
            0 <= rate <= 1_000,
            -m <= a <= m,
    ;
    let n = m * 1_000;
    assert(-(n * qty) <= t <= n * qty) by (nonlinear_arith)
        requires
            t == b * qty,
            qty >= 1,
            -n <= b <= n,
    ;
    lemma_ceil_div(t, FINE_CENT as int);
}

} // verus!
