//! The prices of an exit: the least an ask may be, the most a close may pay,
//! and where to rest between the two sides of a book.
//!
//! What is read is a fraction of a dollar of any length, and what is computed of
//! it is exact; what is found is a price in millionths.
use crate::decimal::{below, total, Ratio};
use crate::fees::{lemma_fee_at, FeeSchedule};
use crate::ladder::{
    ceil_to_tick, ladder_ok, rung_step, step_at, step_near, step_of, tick_above, tick_ceil, Rung,
};
use crate::money::{
    lemma_floor_div, lemma_nearest, nearest, px6, px_ok, qty_ok, six_decimals, unit, Px, CENT, FINE, ONE, PX_MAX, QTY_MAX,
};
use crate::ratio::{clamped, down, less_by, scaled, shared, shown, FARTHEST};
use crate::venue::{Role, Venue};
use vstd::prelude::*;
use vstd::string::StringExecFns;

verus! {

/// Ticks that a search walks before it gives up.
pub const MAX_TICK_WALK: u32 = 40;

/// The floor, per contract, that an exit must lock to be opened or kept: two
/// cents, the floor under which no lot is selected.
pub const EXIT_FLOOR: i64 = 20_000;

/// The floor, per contract, that completes a leg already traded: half a cent.
pub const MIN_LOCK: i64 = 5_000;

/// Why a price could not be found. The prices are those that the operator is
/// shown, rounded to millionths.
#[derive(Clone, Copy, Debug, PartialEq, Eq, Structural)]
pub enum PriceRefusal {
    /// The ladder holds no price at zero, so it has no bottom.
    NoBottomRung,
    /// A price lies on no rung of the ladder.
    OutsideLadder { px: Px },
    /// Nothing positive stands above the bottom of the ladder.
    NoPositivePrice,
    /// A profitable ask would be a dollar or more.
    NeedsDollar { want: Px, k_basis: Px, pm_basis: Px, pm_close: Px },
    /// A price has no legal spelling on the ladder.
    NoSpelling { px: Px },
    /// No price on the ladder nets enough after the fee.
    NetsNowhere { want: Px },
    /// The walk up the ladder reached a dollar.
    ReachesDollar { k_basis: Px, pm_basis: Px },
    /// The walk up the ladder did not end.
    ExitNotConverged,
    /// The best post-only ask is not above the bid.
    NotAboveBid { bid: Px, px: Px },
    /// The best post-only ask is a dollar or more.
    RestAtDollar { px: Px },
    /// The best post-only bid is not positive.
    NoPassiveBid { px: Px },
    /// The best post-only bid is not below the ask.
    NotBelowAsk { ask: Px, px: Px },
    /// No PM-US price above zero closes the basket with the lock.
    NoCeiling { k_out: Px, k_basis: Px, pm_basis: Px },
    /// The walk down in cents reached zero.
    NoPositiveClose { k_fill: Px },
    /// The walk down in cents did not end.
    CloseNotConverged,
}

impl PriceRefusal {
    pub open spec fn message(self) -> Seq<char> {
        match self {
            PriceRefusal::NoBottomRung => "the tick ladder has no bottom rung"@,
            PriceRefusal::OutsideLadder { px } => six_decimals(px as int)
                + " is outside every rung of the tick ladder"@,
            PriceRefusal::NoPositivePrice => "the tick ladder has no positive price"@,
            PriceRefusal::NeedsDollar { want, k_basis, pm_basis, pm_close } => "exiting this lot profitably would need a Kalshi ask of "@
                + six_decimals(want as int)
                + " — at or above $1, against a basis of "@
                + six_decimals(k_basis as int)
                + " + "@
                + six_decimals(pm_basis as int)
                + " with the PM-US close at "@
                + six_decimals(pm_close as int)
                + ". It cannot be done: the pair pays out at most $1 and this lot has moved against us."@,
            PriceRefusal::NoSpelling { px } => six_decimals(px as int)
                + " is outside every rung of the venue's tick ladder, so it has no legal spelling"@,
            PriceRefusal::NetsNowhere { want } => "no price on the ladder nets "@
                + six_decimals(want as int)
                + " after the Kalshi maker fee — this lot cannot be exited at a profit at any legal price"@,
            PriceRefusal::ReachesDollar { k_basis, pm_basis } => "exiting this lot profitably would need a Kalshi ask at or above $1 against a basis of "@
                + six_decimals(k_basis as int)
                + " + "@
                + six_decimals(pm_basis as int)
                + " — it cannot be done"@,
            PriceRefusal::ExitNotConverged => "the exit limit search did not converge — refusing rather than guessing"@,
            PriceRefusal::NotAboveBid { bid, px } => "the book is bid "@
                + six_decimals(bid as int)
                + " and the best post-only price the ladder offers is "@
                + six_decimals(px as int)
                + " — not above it, so this exit has no price that is not a take"@,
            PriceRefusal::RestAtDollar { px } => "the best post-only price for this exit is "@
                + six_decimals(px as int)
                + " — at or above $1, which is not a price this pair can pay"@,
            PriceRefusal::NoPassiveBid { px } => "the best post-only bid this lot may make is "@
                + six_decimals(px as int)
                + " — not a price, so this exit has no passive PM-US price"@,
            PriceRefusal::NotBelowAsk { ask, px } => "the book is offered "@
                + six_decimals(ask as int)
                + " and the best post-only bid the ladder offers is "@
                + six_decimals(px as int)
                + " — not below it, so this exit has no price that is not a take"@,
            PriceRefusal::NoCeiling { k_out, k_basis, pm_basis } => "the Kalshi leg returned "@
                + six_decimals(k_out as int)
                + " against a lot that cost "@
                + six_decimals(k_basis as int)
                + " + "@
                + six_decimals(pm_basis as int)
                + ", so no PM-US price above zero closes this basket with 0.005 locked"@,
            PriceRefusal::NoPositiveClose { k_fill } => "no positive PM-US price closes this basket with 0.005 locked against a Kalshi fill of "@
                + six_decimals(k_fill as int),
            PriceRefusal::CloseNotConverged => "the close limit search did not converge — refusing rather than guessing"@,
        }
    }

    /// The refusal in words.
    pub fn text(&self) -> (r: String)
        ensures
            r@ == self.message(),
    {
        match self {
            PriceRefusal::NoBottomRung => "the tick ladder has no bottom rung".to_owned(),
            PriceRefusal::OutsideLadder { px } => {
                let mut s: String = px6(*px).as_str().to_owned();
                s.append(" is outside every rung of the tick ladder");
                s
            },
            PriceRefusal::NoPositivePrice => "the tick ladder has no positive price".to_owned(),
            PriceRefusal::NeedsDollar { want, k_basis, pm_basis, pm_close } => {
                let mut s: String = "exiting this lot profitably would need a Kalshi ask of ".to_owned();
                s.append(px6(*want).as_str());
                s.append(" — at or above $1, against a basis of ");
                s.append(px6(*k_basis).as_str());
                s.append(" + ");
                s.append(px6(*pm_basis).as_str());
                s.append(" with the PM-US close at ");
                s.append(px6(*pm_close).as_str());
                s.append(". It cannot be done: the pair pays out at most $1 and this lot has moved against us.");
                s
            },
            PriceRefusal::NoSpelling { px } => {
                let mut s: String = px6(*px).as_str().to_owned();
                s.append(" is outside every rung of the venue's tick ladder, so it has no legal spelling");
                s
            },
            PriceRefusal::NetsNowhere { want } => {
                let mut s: String = "no price on the ladder nets ".to_owned();
                s.append(px6(*want).as_str());
                s.append(" after the Kalshi maker fee — this lot cannot be exited at a profit at any legal price");
                s
            },
            PriceRefusal::ReachesDollar { k_basis, pm_basis } => {
                let mut s: String = "exiting this lot profitably would need a Kalshi ask at or above $1 against a basis of ".to_owned();
                s.append(px6(*k_basis).as_str());
                s.append(" + ");
                s.append(px6(*pm_basis).as_str());
                s.append(" — it cannot be done");
                s
            },
            PriceRefusal::ExitNotConverged => "the exit limit search did not converge — refusing rather than guessing".to_owned(),
            PriceRefusal::NotAboveBid { bid, px } => {
                let mut s: String = "the book is bid ".to_owned();
                s.append(px6(*bid).as_str());
                s.append(" and the best post-only price the ladder offers is ");
                s.append(px6(*px).as_str());
                s.append(" — not above it, so this exit has no price that is not a take");
                s
            },
            PriceRefusal::RestAtDollar { px } => {
                let mut s: String = "the best post-only price for this exit is ".to_owned();
                s.append(px6(*px).as_str());
                s.append(" — at or above $1, which is not a price this pair can pay");
                s
            },
            PriceRefusal::NoPassiveBid { px } => {
                let mut s: String = "the best post-only bid this lot may make is ".to_owned();
                s.append(px6(*px).as_str());
                s.append(" — not a price, so this exit has no passive PM-US price");
                s
            },
            PriceRefusal::NotBelowAsk { ask, px } => {
                let mut s: String = "the book is offered ".to_owned();
                s.append(px6(*ask).as_str());
                s.append(" and the best post-only bid the ladder offers is ");
                s.append(px6(*px).as_str());
                s.append(" — not below it, so this exit has no price that is not a take");
                s
            },
            PriceRefusal::NoCeiling { k_out, k_basis, pm_basis } => {
                let mut s: String = "the Kalshi leg returned ".to_owned();
                s.append(px6(*k_out).as_str());
                s.append(" against a lot that cost ");
                s.append(px6(*k_basis).as_str());
                s.append(" + ");
                s.append(px6(*pm_basis).as_str());
                s.append(", so no PM-US price above zero closes this basket with 0.005 locked");
                s
            },
            PriceRefusal::NoPositiveClose { k_fill } => {
                let mut s: String = "no positive PM-US price closes this basket with 0.005 locked against a Kalshi fill of ".to_owned();
                s.append(px6(*k_fill).as_str());
                s
            },
            PriceRefusal::CloseNotConverged => "the close limit search did not converge — refusing rather than guessing".to_owned(),
        }
    }
}

// ------------------------------------------------------------------ quotations

/// A price in millionths, of its fraction of a dollar.
pub open spec fn micro(x: (int, int)) -> (int, int) {
    scaled(x, ONE as int)
}

/// A price as the operator is shown it: to the nearest millionth.
pub open spec fn six(x: (int, int)) -> Px {
    shown(micro(x)) as i64
}

/// A price rounded to the four decimals that the venues take, in millionths.
pub open spec fn quantized(x: (int, int)) -> int {
    let n = shown(scaled(x, 10_000));
    (if n > FARTHEST as int / 100 {
        FARTHEST as int / 100
    } else if n < -(FARTHEST as int / 100) {
        -(FARTHEST as int / 100)
    } else {
        n
    }) * 100
}

/// A fraction with a denominator.
pub open spec fn proper(x: (int, int)) -> bool {
    x.1 > 0
}

/// A price in millionths, of its fraction of a dollar.
pub fn micro_of(x: &Ratio) -> (r: Ratio)
    requires
        x.wf(),
    ensures
        r.wf(),
        r.at() == micro(x.at()),
{
    x.scaled(ONE as u128)
}

/// A price to the nearest millionth.
pub fn six_of(x: &Ratio) -> (r: Px)
    requires
        x.wf(),
    ensures
        r == six(x.at()),
{
    micro_of(x).shown()
}

/// A price between nothing and a dollar stays there when it is rounded.
pub proof fn lemma_quantized_in_range(x: (int, int))
    requires
        proper(x),
        0 <= x.0 <= x.1,
    ensures
        0 <= quantized(x) <= ONE,
{
    let (a, b) = (x.0 * 10_000, x.1);
    lemma_nearest(a, b);
    let n = nearest(a, b);
    assert(n >= 0) by (nonlinear_arith)
        requires
            2 * (a - n * b) <= b,
            a >= 0,
            b > 0,
    ;
    assert(n <= 10_000) by (nonlinear_arith)
        requires
            2 * (n * b - a) <= b,
            a <= 10_000 * b,
            b > 0,
    ;
}

/// Rounds a price to four decimals.
pub fn quantize(x: &Ratio) -> (r: Px)
    requires
        x.wf(),
    ensures
        r == quantized(x.at()),
        -FARTHEST <= r <= FARTHEST,
        r % 100 == 0,
{
    let n: i64 = x.scaled(10_000).shown();
    let most: i64 = FARTHEST / 100;
    let m: i64 = if n > most {
        most
    } else if n < -most {
        -most
    } else {
        n
    };
    m * 100
}

// -------------------------------------------------------------------- the lock

/// What a lot cost beyond the dollar that it pays, over all contracts, in fine
/// units.
pub open spec fn sunk(k_basis: (int, int), pm_basis: (int, int), qty: i64) -> (int, int) {
    scaled(less_by(total(k_basis, pm_basis), (1, 1)), ONE * unit(qty))
}

/// What selling the Kalshi leg brings, net of its fee.
pub open spec fn proceeds(fees: FeeSchedule, role: Role, x: (int, int), qty: i64) -> (int, int) {
    less_by(scaled(x, ONE * unit(qty)), fees.charge_on(Venue::Kalshi, role, x, qty as int))
}

/// What buying the PM-US leg back costs, with its fee.
pub open spec fn cost(fees: FeeSchedule, role: Role, x: (int, int), qty: i64) -> (int, int) {
    total(scaled(x, ONE * unit(qty)), fees.charge_on(Venue::PolymarketUs, role, x, qty as int))
}

/// What an exit of `qty` contracts locks in all, net of both fees and of what
/// both legs cost, in fine units.
pub open spec fn locked(
    fees: FeeSchedule,
    roles: (Role, Role),
    k_px: (int, int),
    pm_px: (int, int),
    k_basis: (int, int),
    pm_basis: (int, int),
    qty: i64,
) -> (int, int) {
    less_by(
        proceeds(fees, roles.0, k_px, qty),
        total(sunk(k_basis, pm_basis, qty), cost(fees, roles.1, pm_px, qty)),
    )
}

/// What one contract of an exit locks, in millionths of a dollar.
pub open spec fn locked_ct(
    fees: FeeSchedule,
    roles: (Role, Role),
    k_px: (int, int),
    pm_px: (int, int),
    k_basis: (int, int),
    pm_basis: (int, int),
    qty: i64,
) -> (int, int) {
    shared(locked(fees, roles, k_px, pm_px, k_basis, pm_basis, qty), unit(qty))
}

/// Whether a contract locks at least `floor` millionths.
pub open spec fn reaches(lock: (int, int), floor: Px) -> bool {
    !below(lock, (floor as int, 1))
}

/// Whether a contract locks at least `floor` millionths.
pub fn at_least(lock: &Ratio, floor: Px) -> (r: bool)
    requires
        lock.wf(),
    ensures
        r == reaches(lock.at(), floor),
{
    !lock.under(floor as i128)
}

/// Fine units in one price unit of `qty` contracts.
fn unit_of(qty: i64) -> (r: i128)
    requires
        qty_ok(qty),
    ensures
        r == unit(qty),
        10_000_000_000 <= r <= 10_000_000_000_000_000_000,
{
    (qty as i128) * FINE
}

proof fn lemma_scaled(x: int, qty: int, max: int)
    requires
        -max <= x <= max,
        0 <= max <= 1_000_000_000_000_000,
        1 <= qty <= QTY_MAX,
    ensures
        -(max * 10_000_000_000_000_000_000) <= x * (qty * FINE) <= max
            * 10_000_000_000_000_000_000,
{
    let u = qty * FINE;
    assert(-(max * 10_000_000_000_000_000_000) <= x * u <= max * 10_000_000_000_000_000_000)
        by (nonlinear_arith)
        requires
            -max <= x <= max,
            0 <= max,
            0 < u <= 10_000_000_000_000_000_000,
    ;
}

fn sunk_of(k_basis: &Ratio, pm_basis: &Ratio, qty: i64) -> (r: Ratio)
    requires
        k_basis.wf(),
        pm_basis.wf(),
        qty_ok(qty),
    ensures
        r.wf(),
        r.at() == sunk(k_basis.at(), pm_basis.at(), qty),
{
    let u: i128 = unit_of(qty);
    k_basis.total(pm_basis).less_by(&Ratio::whole(1)).scaled((ONE as u128) * (u as u128))
}

fn proceeds_of(fees: &FeeSchedule, role: Role, x: &Ratio, qty: i64) -> (r: Ratio)
    requires
        fees.wf(),
        x.wf(),
        qty_ok(qty),
    ensures
        r.wf(),
        r.at() == proceeds(*fees, role, x.at(), qty),
{
    let u: i128 = unit_of(qty);
    x.scaled((ONE as u128) * (u as u128)).less_by(&fees.charge(Venue::Kalshi, role, x, qty))
}

fn cost_of(fees: &FeeSchedule, role: Role, x: &Ratio, qty: i64) -> (r: Ratio)
    requires
        fees.wf(),
        x.wf(),
        qty_ok(qty),
    ensures
        r.wf(),
        r.at() == cost(*fees, role, x.at(), qty),
{
    let u: i128 = unit_of(qty);
    x.scaled((ONE as u128) * (u as u128)).total(&fees.charge(Venue::PolymarketUs, role, x, qty))
}

/// What one contract of an exit locks, net of both legs' fees, against what
/// both legs cost, in millionths of a dollar.
pub fn lock_per_ct(
    fees: &FeeSchedule,
    roles: (Role, Role),
    k_px: &Ratio,
    pm_px: &Ratio,
    k_basis: &Ratio,
    pm_basis: &Ratio,
    qty: i64,
) -> (r: Ratio)
    requires
        fees.wf(),
        k_px.wf(),
        pm_px.wf(),
        k_basis.wf(),
        pm_basis.wf(),
        qty_ok(qty),
    ensures
        r.wf(),
        r.at() == locked_ct(
            *fees,
            roles,
            k_px.at(),
            pm_px.at(),
            k_basis.at(),
            pm_basis.at(),
            qty,
        ),
{
    let out: Ratio = sunk_of(k_basis, pm_basis, qty).total(&cost_of(fees, roles.1, pm_px, qty));
    let lock: Ratio = proceeds_of(fees, roles.0, k_px, qty).less_by(&out);
    lock.shared(unit_of(qty) as u128)
}

// --------------------------------------------------------------- the least ask

/// What a Kalshi ask must net, over all contracts, so that selling there and
/// buying back at `pm_close` locks `floor` a contract.
pub open spec fn wanted(
    fees: FeeSchedule,
    k_basis: (int, int),
    pm_basis: (int, int),
    pm_close: (int, int),
    qty: i64,
    pm_role: Role,
    floor: Px,
) -> (int, int) {
    total(
        total(sunk(k_basis, pm_basis, qty), cost(fees, pm_role, pm_close, qty)),
        (floor * unit(qty), 1),
    )
}

/// Whether selling at `l` nets `want` after the Kalshi fee.
pub open spec fn nets(
    fees: FeeSchedule,
    k_role: Role,
    qty: i64,
    want: (int, int),
    l: int,
) -> bool {
    (l * unit(qty) - fees.fee_on(Venue::Kalshi, k_role, l, qty as int)) * want.1 >= want.0
}

/// What must be netted, a contract, as the operator is shown it.
pub open spec fn want_shown(want: (int, int), qty: i64) -> Px {
    shown(shared(want, unit(qty))) as i64
}

/// The walk up the ladder from `l`: the first price that nets `want`, within
/// `n` looks. The two bases are as the operator is shown them.
pub open spec fn climb(
    fees: FeeSchedule,
    ladder: Seq<Rung>,
    k_role: Role,
    qty: i64,
    want: (int, int),
    k_basis: Px,
    pm_basis: Px,
    l: Px,
    n: nat,
) -> Result<Px, PriceRefusal>
    decreases n,
{
    if n == 0 {
        Err(PriceRefusal::ExitNotConverged)
    } else if nets(fees, k_role, qty, want, l as int) {
        Ok(l)
    } else {
        match step_at(ladder, l) {
            None => Err(PriceRefusal::OutsideLadder { px: l }),
            Some(step) => match tick_ceil(ladder, l + step, 1) {
                None => Err(PriceRefusal::NetsNowhere { want: want_shown(want, qty) }),
                Some(next) => if next >= ONE {
                    Err(PriceRefusal::ReachesDollar { k_basis, pm_basis })
                } else {
                    climb(
                        fees,
                        ladder,
                        k_role,
                        qty,
                        want,
                        k_basis,
                        pm_basis,
                        next,
                        (n - 1) as nat,
                    )
                },
            },
        }
    }
}

/// The lowest positive price of a ladder.
pub open spec fn lowest_positive(ladder: Seq<Rung>) -> Result<Px, PriceRefusal> {
    match tick_ceil(ladder, 0, 1) {
        None => Err(PriceRefusal::NoBottomRung),
        Some(bottom) => if bottom > 0 {
            Ok(bottom)
        } else {
            match step_at(ladder, bottom) {
                None => Err(PriceRefusal::OutsideLadder { px: bottom }),
                Some(step) => match tick_ceil(ladder, bottom + step, 1) {
                    None => Err(PriceRefusal::NoPositivePrice),
                    Some(p) => Ok(p),
                },
            }
        },
    }
}

/// The least ask at which an exit locks `floor`, or why there is none.
pub open spec fn least_ask(
    fees: FeeSchedule,
    ladder: Seq<Rung>,
    k_basis: (int, int),
    pm_basis: (int, int),
    pm_close: (int, int),
    qty: i64,
    k_role: Role,
    pm_role: Role,
    floor: Px,
) -> Result<Px, PriceRefusal> {
    let want = wanted(fees, k_basis, pm_basis, pm_close, qty, pm_role, floor);
    if want.0 <= 0 {
        lowest_positive(ladder)
    } else if want.0 >= ONE * unit(qty) * want.1 {
        Err(
            PriceRefusal::NeedsDollar {
                want: want_shown(want, qty),
                k_basis: six(k_basis),
                pm_basis: six(pm_basis),
                pm_close: six(pm_close),
            },
        )
    } else {
        match tick_ceil(ladder, want.0, want.1 * unit(qty)) {
            None => Err(PriceRefusal::NoSpelling { px: want_shown(want, qty) }),
            Some(l) => climb(
                fees,
                ladder,
                k_role,
                qty,
                want,
                six(k_basis),
                six(pm_basis),
                l,
                MAX_TICK_WALK as nat,
            ),
        }
    }
}

fn first_positive(ladder: &Vec<Rung>) -> (r: Result<Px, PriceRefusal>)
    requires
        ladder_ok(ladder@),
    ensures
        r == lowest_positive(ladder@),
        r matches Ok(l) ==> px_ok(l),
{
    let bottom: Px = match ceil_to_tick(ladder, 0, 1) {
        None => {
            return Err(PriceRefusal::NoBottomRung);
        },
        Some(b) => b,
    };
    if bottom > 0 {
        return Ok(bottom);
    }
    let step: Px = match rung_step(ladder, bottom) {
        None => {
            return Err(PriceRefusal::OutsideLadder { px: bottom });
        },
        Some(s) => s,
    };
    match ceil_to_tick(ladder, (bottom + step) as i128, 1) {
        None => Err(PriceRefusal::NoPositivePrice),
        Some(p) => Ok(p),
    }
}

/// The lowest legal Kalshi ask at which selling the lot and buying its PM-US
/// leg back at `pm_close` locks `floor` a contract, net of both legs' fees.
pub fn exit_limit(
    fees: &FeeSchedule,
    ladder: &Vec<Rung>,
    k_basis: &Ratio,
    pm_basis: &Ratio,
    pm_close: &Ratio,
    qty: i64,
    k_role: Role,
    pm_role: Role,
    floor: Px,
) -> (r: Result<Px, PriceRefusal>)
    requires
        fees.wf(),
        ladder_ok(ladder@),
        k_basis.wf(),
        pm_basis.wf(),
        pm_close.wf(),
        qty_ok(qty),
        px_ok(floor),
    ensures
        r == least_ask(
            *fees,
            ladder@,
            k_basis.at(),
            pm_basis.at(),
            pm_close.at(),
            qty,
            k_role,
            pm_role,
            floor,
        ),
        r matches Ok(l) ==> px_ok(l),
{
    let u: i128 = unit_of(qty);
    proof {
        lemma_scaled(floor as int, qty as int, PX_MAX as int);
    }
    let want: Ratio = sunk_of(k_basis, pm_basis, qty).total(
        &cost_of(fees, pm_role, pm_close, qty),
    ).total(&Ratio::whole((floor as i128) * u));
    let ghost w = want.at();
    if !want.above(0) {
        return first_positive(ladder);
    }
    let each: Ratio = want.shared(u as u128);
    if !want.under((ONE as i128) * u) {
        return Err(
            PriceRefusal::NeedsDollar {
                want: each.shown(),
                k_basis: six_of(k_basis),
                pm_basis: six_of(pm_basis),
                pm_close: six_of(pm_close),
            },
        );
    }
    let mut l: Px = match tick_above(ladder, &each) {
        None => {
            return Err(PriceRefusal::NoSpelling { px: each.shown() });
        },
        Some(p) => p,
    };
    let ghost goal = least_ask(
        *fees,
        ladder@,
        k_basis.at(),
        pm_basis.at(),
        pm_close.at(),
        qty,
        k_role,
        pm_role,
        floor,
    );
    let mut left: u32 = MAX_TICK_WALK;
    while left > 0
        invariant
            left <= MAX_TICK_WALK,
            fees.wf(),
            ladder_ok(ladder@),
            qty_ok(qty),
            u == unit(qty),
            0 < u <= 10_000_000_000_000_000_000,
            px_ok(l),
            want.wf(),
            w == want.at(),
            each.wf(),
            each.at() == shared(w, unit(qty)),
            k_basis.wf(),
            pm_basis.wf(),
            goal == least_ask(
                *fees,
                ladder@,
                k_basis.at(),
                pm_basis.at(),
                pm_close.at(),
                qty,
                k_role,
                pm_role,
                floor,
            ),
            goal == climb(
                *fees,
                ladder@,
                k_role,
                qty,
                w,
                six(k_basis.at()),
                six(pm_basis.at()),
                l,
                left as nat,
            ),
        decreases left,
    {
        let k_fee: i128 = fees.fee(Venue::Kalshi, k_role, l, qty);
        proof {
            lemma_scaled(l as int, qty as int, PX_MAX as int);
            lemma_fee_range(*fees, Venue::Kalshi, k_role, l, qty);
        }
        if !want.above((l as i128) * u - k_fee) {
            return Ok(l);
        }
        let step: Px = match rung_step(ladder, l) {
            None => {
                return Err(PriceRefusal::OutsideLadder { px: l });
            },
            Some(s) => s,
        };
        let next: Px = match ceil_to_tick(ladder, (l + step) as i128, 1) {
            None => {
                return Err(PriceRefusal::NetsNowhere { want: each.shown() });
            },
            Some(p) => p,
        };
        if next >= ONE {
            return Err(
                PriceRefusal::ReachesDollar { k_basis: six_of(k_basis), pm_basis: six_of(pm_basis) },
            );
        }
        l = next;
        left = left - 1;
    }
    Err(PriceRefusal::ExitNotConverged)
}

proof fn lemma_fee_range(fees: FeeSchedule, venue: Venue, role: Role, p: Px, qty: i64)
    requires
        fees.wf(),
        px_ok(p),
        qty_ok(qty),
    ensures
        -20_000_000_000_000_000_000_000_000_000 <= fees.fee_on(venue, role, p as int, qty as int)
            <= 20_000_000_000_000_000_000_000_000_000,
{
    let q = qty as int;
    lemma_fee_at(fees, venue, role, p as int, q, PX_MAX as int);
    let low = (PX_MAX * PX_MAX + PX_MAX * ONE) * crate::fees::RATE_MAX;
    assert(low == 10_100_000_000_000_000_000) by (nonlinear_arith)
        requires
            low == (100_000_000 * 100_000_000 + 100_000_000 * 1_000_000) * 1_000,
    ;
    assert(low * q <= 10_100_000_000_000_000_000_000_000_000) by (nonlinear_arith)
        requires
            low == 10_100_000_000_000_000_000,
            1 <= q <= 1_000_000_000,
    ;
}

// ------------------------------------------------------------- the dearest close

/// What buying the PM-US leg back may cost, over all contracts and with its
/// fee, so that a Kalshi leg sold at `k_fill` locks `floor` a contract.
pub open spec fn allowed(
    fees: FeeSchedule,
    k_fill: (int, int),
    k_basis: (int, int),
    pm_basis: (int, int),
    qty: i64,
    k_role: Role,
    floor: Px,
) -> (int, int) {
    less_by(
        proceeds(fees, k_role, k_fill, qty),
        total(sunk(k_basis, pm_basis, qty), (floor * unit(qty), 1)),
    )
}

/// Whether buying at `p` costs at most `cap` with its fee.
pub open spec fn costs_within(
    fees: FeeSchedule,
    pm_role: Role,
    qty: i64,
    cap: (int, int),
    p: int,
) -> bool {
    (p * unit(qty) + fees.fee_on(Venue::PolymarketUs, pm_role, p, qty as int)) * cap.1 <= cap.0
}

/// The walk down in cents from `p`: the first price within `cap`, within `n`
/// looks. The fill is as the operator is shown it.
pub open spec fn descend(
    fees: FeeSchedule,
    pm_role: Role,
    qty: i64,
    cap: (int, int),
    k_fill: Px,
    p: Px,
    n: nat,
) -> Result<Px, PriceRefusal>
    decreases n,
{
    if n == 0 {
        Err(PriceRefusal::CloseNotConverged)
    } else if p <= 0 {
        Err(PriceRefusal::NoPositiveClose { k_fill })
    } else if costs_within(fees, pm_role, qty, cap, p as int) {
        Ok(p)
    } else {
        descend(fees, pm_role, qty, cap, k_fill, (p - CENT) as i64, (n - 1) as nat)
    }
}

/// The largest whole cent whose total over the quantity is at most `cap`, as far
/// as cents are told apart.
pub open spec fn free_bound(cap: (int, int), qty: i64) -> int {
    (down(shared(cap, unit(qty))) / CENT as int) * CENT
}

/// The most that a PM-US close may pay, or why there is no such price.
pub open spec fn dearest_close(
    fees: FeeSchedule,
    k_fill: (int, int),
    k_basis: (int, int),
    pm_basis: (int, int),
    qty: i64,
    k_role: Role,
    pm_role: Role,
    floor: Px,
) -> Result<Px, PriceRefusal> {
    let cap = allowed(fees, k_fill, k_basis, pm_basis, qty, k_role, floor);
    if cap.0 <= 0 {
        Err(
            PriceRefusal::NoCeiling {
                k_out: shown(shared(proceeds(fees, k_role, k_fill, qty), unit(qty))) as i64,
                k_basis: six(k_basis),
                pm_basis: six(pm_basis),
            },
        )
    } else {
        descend(
            fees,
            pm_role,
            qty,
            cap,
            six(k_fill),
            free_bound(cap, qty) as i64,
            MAX_TICK_WALK as nat,
        )
    }
}

/// A whole cent that costs no more than is allowed, before the fee; and up to a
/// dollar no dearer one does.
pub proof fn lemma_free_bound(cap: (int, int), qty: i64)
    requires
        proper(cap),
        cap.0 > 0,
        qty_ok(qty),
    ensures
        0 <= free_bound(cap, qty) <= FARTHEST,
        free_bound(cap, qty) % CENT as int == 0,
        (free_bound(cap, qty) * unit(qty)) * cap.1 <= cap.0,
        free_bound(cap, qty) < ONE ==> cap.0 < ((free_bound(cap, qty) + CENT) * unit(qty)) * cap.1,
{
    let u = unit(qty);
    let b = cap.1 * u;
    assert(b > 0) by (nonlinear_arith)
        requires
            b == cap.1 * u,
            cap.1 > 0,
            u > 0,
    ;
    let q = cap.0 / b;
    lemma_floor_div(cap.0, b);
    assert(q >= 0) by (nonlinear_arith)
        requires
            cap.0 < (q + 1) * b,
            cap.0 > 0,
            b > 0,
    ;
    let d = clamped(q);
    let k = d / CENT as int;
    let p = k * CENT;
    lemma_floor_div(d, CENT as int);
    assert(p % CENT as int == 0) by {
        vstd::arithmetic::div_mod::lemma_mod_multiples_basic(k, CENT as int);
    }
    let c = cap.1;
    assert((p * u) * c <= cap.0) by (nonlinear_arith)
        requires
            q * b <= cap.0,
            b == c * u,
            p <= q,
            c > 0,
            u > 0,
    ;
    if p < ONE {
        assert(d == q);
        let e = p + CENT;
        assert(cap.0 < (e * u) * c) by (nonlinear_arith)
            requires
                cap.0 < (q + 1) * b,
                b == c * u,
                q + 1 <= e,
                c > 0,
                u > 0,
        ;
    }
}

proof fn lemma_no_fee_past_a_dollar(fees: FeeSchedule, role: Role, p: int, qty: int)
    requires
        fees.wf(),
        p >= ONE,
        qty >= 1,
    ensures
        fees.fee_on(Venue::PolymarketUs, role, p, qty) <= 0,
{
    let rate = fees.rate(Venue::PolymarketUs, role);
    let a = p * (ONE - p);
    assert(a <= 0) by (nonlinear_arith)
        requires
            a == p * (1_000_000 - p),
            p >= 1_000_000,
    ;
    assert(rate * a <= 0) by (nonlinear_arith)
        requires
            rate >= 0,
            a <= 0,
    ;
    let b = rate * a;
    assert(b * qty <= 0) by (nonlinear_arith)
        requires
            b <= 0,
            qty >= 1,
    ;
}

/// The price that a PM-US close may pay at most, given what the Kalshi leg
/// sold for.
pub fn close_limit(
    fees: &FeeSchedule,
    k_fill: &Ratio,
    k_basis: &Ratio,
    pm_basis: &Ratio,
    qty: i64,
    k_role: Role,
    pm_role: Role,
    floor: Px,
) -> (r: Result<Px, PriceRefusal>)
    requires
        fees.wf(),
        k_fill.wf(),
        k_basis.wf(),
        pm_basis.wf(),
        qty_ok(qty),
        px_ok(floor),
    ensures
        r == dearest_close(
            *fees,
            k_fill.at(),
            k_basis.at(),
            pm_basis.at(),
            qty,
            k_role,
            pm_role,
            floor,
        ),
        r matches Ok(p) ==> 0 < p <= FARTHEST && p % CENT == 0,
{
    let u: i128 = unit_of(qty);
    proof {
        lemma_scaled(floor as int, qty as int, PX_MAX as int);
    }
    let brings: Ratio = proceeds_of(fees, k_role, k_fill, qty);
    let cap: Ratio = brings.less_by(
        &sunk_of(k_basis, pm_basis, qty).total(&Ratio::whole((floor as i128) * u)),
    );
    let ghost c = cap.at();
    if !cap.above(0) {
        return Err(
            PriceRefusal::NoCeiling {
                k_out: brings.shared(u as u128).shown(),
                k_basis: six_of(k_basis),
                pm_basis: six_of(pm_basis),
            },
        );
    }
    proof {
        lemma_free_bound(c, qty);
    }
    let each: Px = cap.shared(u as u128).down();
    let mut p: Px = (each / CENT) * CENT;
    let ghost top = free_bound(c, qty);
    assert(p == top);
    let ghost goal = dearest_close(
        *fees,
        k_fill.at(),
        k_basis.at(),
        pm_basis.at(),
        qty,
        k_role,
        pm_role,
        floor,
    );
    let mut left: u32 = MAX_TICK_WALK;
    while left > 0
        invariant
            left <= MAX_TICK_WALK,
            fees.wf(),
            qty_ok(qty),
            u == unit(qty),
            0 < u <= 10_000_000_000_000_000_000,
            p % CENT == 0,
            p <= top <= FARTHEST,
            p >= -400_000 + left * CENT,
            k_fill.wf(),
            cap.wf(),
            c == cap.at(),
            (top * unit(qty)) * c.1 <= c.0,
            goal == dearest_close(
                *fees,
                k_fill.at(),
                k_basis.at(),
                pm_basis.at(),
                qty,
                k_role,
                pm_role,
                floor,
            ),
            goal == descend(*fees, pm_role, qty, c, six(k_fill.at()), p, left as nat),
        decreases left,
    {
        if p <= 0 {
            return Err(PriceRefusal::NoPositiveClose { k_fill: six_of(k_fill) });
        }
        if p >= ONE {
            proof {
                lemma_no_fee_past_a_dollar(*fees, pm_role, p as int, qty as int);
                let f = fees.fee_on(Venue::PolymarketUs, pm_role, p as int, qty as int);
                let (x, v, d) = (p as int, unit(qty), c.1);
                assert((x * v + f) * d <= (top * v) * d) by (nonlinear_arith)
                    requires
                        x <= top,
                        f <= 0,
                        v > 0,
                        d > 0,
                ;
            }
            return Ok(p);
        }
        let fee: i128 = fees.fee(Venue::PolymarketUs, pm_role, p, qty);
        proof {
            lemma_scaled(p as int, qty as int, PX_MAX as int);
            lemma_fee_range(*fees, Venue::PolymarketUs, pm_role, p, qty);
        }
        if !cap.under((p as i128) * u + fee) {
            return Ok(p);
        }
        p = p - CENT;
        left = left - 1;
    }
    Err(PriceRefusal::CloseNotConverged)
}

// ------------------------------------------------------------- where to rest

/// One step inside the competing ask, in millionths, where that is a price.
pub open spec fn inside_ask(ladder: Seq<Rung>, ask: Option<(int, int)>) -> Result<
    Option<(int, int)>,
    PriceRefusal,
> {
    match ask {
        None => Ok(None),
        Some(a) => match step_near(ladder, micro(a)) {
            None => Err(PriceRefusal::OutsideLadder { px: six(a) }),
            Some(s) => {
                let i = less_by(micro(a), (s as int, 1));
                Ok(
                    if i.0 > 0 {
                        Some(i)
                    } else {
                        None
                    },
                )
            },
        },
    }
}

/// The first legal price above the bid.
pub open spec fn over_bid(ladder: Seq<Rung>, bid: Option<(int, int)>) -> Result<
    Option<Px>,
    PriceRefusal,
> {
    match bid {
        None => Ok(None),
        Some(b) => match step_near(ladder, micro(b)) {
            None => Err(PriceRefusal::OutsideLadder { px: six(b) }),
            Some(s) => {
                let o = total(micro(b), (s as int, 1));
                Ok(tick_ceil(ladder, o.0, o.1))
            },
        },
    }
}

/// The higher of a fraction and a whole number, of which either may be missing.
pub open spec fn higher(a: Option<(int, int)>, b: Option<Px>) -> Option<(int, int)> {
    match (a, b) {
        (Some(x), Some(y)) => Some(
            if below((y as int, 1), x) {
                x
            } else {
                (y as int, 1)
            },
        ),
        (x, None) => x,
        (None, Some(y)) => Some((y as int, 1)),
    }
}

/// The lower of two fractions, of which either may be missing.
pub open spec fn lower(a: Option<(int, int)>, b: Option<(int, int)>) -> Option<(int, int)> {
    match (a, b) {
        (Some(x), Some(y)) => Some(
            if below(x, y) {
                x
            } else {
                y
            },
        ),
        (x, None) => x,
        (None, y) => y,
    }
}

/// A price that may rest as an ask: above the bid, or post-only rejects it, and
/// under a dollar.
pub open spec fn maker_ask(p: Px, bid: Option<(int, int)>) -> Result<Px, PriceRefusal> {
    if bid matches Some(b) && !below(micro(b), (p as int, 1)) {
        Err(PriceRefusal::NotAboveBid { bid: six(bid->0), px: p })
    } else if p >= ONE {
        Err(PriceRefusal::RestAtDollar { px: p })
    } else {
        Ok(p)
    }
}

/// The ask to rest: one step inside the competing ask but above the bid, and
/// never under the floor. Without a touch to price against, the floor.
pub open spec fn resting_ask(
    ladder: Seq<Rung>,
    floor: Px,
    bid: Option<(int, int)>,
    ask: Option<(int, int)>,
) -> Result<Px, PriceRefusal> {
    match (inside_ask(ladder, ask), over_bid(ladder, bid)) {
        (Err(e), _) => Err(e),
        (_, Err(e)) => Err(e),
        (Ok(i), Ok(o)) => match higher(i, o) {
            None => maker_ask(floor, bid),
            Some(touch) => {
                let best = if below(touch, (floor as int, 1)) {
                    (floor as int, 1int)
                } else {
                    touch
                };
                match tick_ceil(ladder, best.0, best.1) {
                    None => Err(PriceRefusal::NoSpelling { px: shown(best) as i64 }),
                    Some(p) => maker_ask(p, bid),
                }
            },
        },
    }
}

/// What is known of a price that may be missing.
pub open spec fn held(x: Option<&Ratio>) -> Option<(int, int)> {
    match x {
        Some(r) => Some(r.at()),
        None => None,
    }
}

fn check_ask(p: Px, bid: Option<&Ratio>) -> (r: Result<Px, PriceRefusal>)
    requires
        bid matches Some(b) ==> b.wf(),
    ensures
        r == maker_ask(p, held(bid)),
        r matches Ok(x) ==> x == p,
{
    if let Some(b) = bid {
        if !micro_of(b).under(p as i128) {
            return Err(PriceRefusal::NotAboveBid { bid: six_of(b), px: p });
        }
    }
    if p >= ONE {
        return Err(PriceRefusal::RestAtDollar { px: p });
    }
    Ok(p)
}

/// The price at which to rest an ask.
pub fn rest_price(ladder: &Vec<Rung>, floor: Px, bid: Option<&Ratio>, ask: Option<&Ratio>) -> (r:
    Result<Px, PriceRefusal>)
    requires
        ladder_ok(ladder@),
        px_ok(floor),
        bid matches Some(b) ==> b.wf(),
        ask matches Some(a) ==> a.wf(),
    ensures
        r == resting_ask(ladder@, floor, held(bid), held(ask)),
        r matches Ok(p) ==> px_ok(p),
{
    let inside: Option<Ratio> = match ask {
        None => None,
        Some(a) => {
            let x: Ratio = micro_of(a);
            match step_of(ladder, &x) {
                None => {
                    return Err(PriceRefusal::OutsideLadder { px: six_of(a) });
                },
                Some(s) => {
                    let i: Ratio = x.less_by(&Ratio::whole(s as i128));
                    if i.above(0) {
                        Some(i)
                    } else {
                        None
                    }
                },
            }
        },
    };
    let over: Option<Px> = match bid {
        None => None,
        Some(b) => {
            let x: Ratio = micro_of(b);
            match step_of(ladder, &x) {
                None => {
                    return Err(PriceRefusal::OutsideLadder { px: six_of(b) });
                },
                Some(s) => tick_above(ladder, &x.total(&Ratio::whole(s as i128))),
            }
        },
    };
    let touch: Ratio = match (inside, over) {
        (Some(i), Some(o)) => if i.above(o as i128) {
            i
        } else {
            Ratio::whole(o as i128)
        },
        (Some(i), None) => i,
        (None, Some(o)) => Ratio::whole(o as i128),
        (None, None) => {
            return check_ask(floor, bid);
        },
    };
    let best: Ratio = if touch.under(floor as i128) {
        Ratio::whole(floor as i128)
    } else {
        touch
    };
    let p: Px = match tick_above(ladder, &best) {
        None => {
            return Err(PriceRefusal::NoSpelling { px: best.shown() });
        },
        Some(x) => x,
    };
    check_ask(p, bid)
}

/// One cent in front of the bid queue, in millionths.
pub open spec fn inside_bid(bid: Option<(int, int)>) -> Option<(int, int)> {
    match bid {
        None => None,
        Some(b) => Some(total(micro(b), (CENT as int, 1))),
    }
}

/// One cent under the ask, in millionths, where that is a price.
pub open spec fn under_ask(ask: Option<(int, int)>) -> Option<(int, int)> {
    match ask {
        None => None,
        Some(a) => {
            let u = less_by(micro(a), (CENT as int, 1));
            if u.0 > 0 {
                Some(u)
            } else {
                None
            }
        },
    }
}

/// The largest whole cent at or below a fraction in millionths, as far as cents
/// are told apart.
pub open spec fn cents_below(x: (int, int)) -> int {
    (down(x) / CENT as int) * CENT
}

/// The bid to rest: one cent in front of the competing bid but below the ask,
/// and never above the ceiling. Without a touch to price against, the ceiling,
/// where that is below the ask.
pub open spec fn resting_bid(
    ceiling: Px,
    bid: Option<(int, int)>,
    ask: Option<(int, int)>,
) -> Result<Px, PriceRefusal> {
    match lower(inside_bid(bid), under_ask(ask)) {
        None => if ask matches Some(a) && !below((ceiling as int, 1), micro(a)) {
            Err(PriceRefusal::NotBelowAsk { ask: six(ask->0), px: ceiling })
        } else {
            Ok(ceiling)
        },
        Some(touch) => {
            let best = if below((ceiling as int, 1), touch) {
                (ceiling as int, 1int)
            } else {
                touch
            };
            let p = cents_below(best) as i64;
            if p <= 0 {
                Err(PriceRefusal::NoPassiveBid { px: p })
            } else if ask matches Some(a) && !below((p as int, 1), micro(a)) {
                Err(PriceRefusal::NotBelowAsk { ask: six(ask->0), px: p })
            } else {
                Ok(p)
            }
        },
    }
}

/// A whole cent at or below a fraction that is no more than `ceiling`.
pub proof fn lemma_cents_below(x: (int, int), ceiling: int)
    requires
        proper(x),
        !below((ceiling, 1), x),
        -FARTHEST <= ceiling <= FARTHEST,
    ensures
        cents_below(x) <= ceiling,
        -FARTHEST <= cents_below(x) <= FARTHEST,
        x.0 > 0 ==> cents_below(x) * x.1 <= x.0,
{
    let q = x.0 / x.1;
    lemma_floor_div(x.0, x.1);
    let b = x.1;
    assert(q <= ceiling) by (nonlinear_arith)
        requires
            q * b <= x.0,
            x.0 <= ceiling * b,
            b > 0,
    ;
    let d = clamped(q);
    lemma_floor_div(d, CENT as int);
    let c = cents_below(x);
    assert(c <= d);
    assert(-FARTHEST <= c) by {
        let k = d / CENT as int;
        assert(d >= -900_000_000_000_000 * CENT);
        assert(k >= -900_000_000_000_000);
    }
    if x.0 > 0 {
        assert(q >= 0) by (nonlinear_arith)
            requires
                x.0 < (q + 1) * b,
                x.0 > 0,
                b > 0,
        ;
        assert(c * b <= q * b) by (nonlinear_arith)
            requires
                c <= q,
                b > 0,
        ;
    }
}

fn cents_of(x: &Ratio) -> (r: Px)
    requires
        x.wf(),
    ensures
        r == cents_below(x.at()),
{
    let d: i64 = x.down();
    if d >= 0 {
        (d / CENT) * CENT
    } else {
        crate::money::to_cent_floor(d)
    }
}

/// The price at which to rest a PM-US bid.
pub fn rest_price_bid(ceiling: Px, bid: Option<&Ratio>, ask: Option<&Ratio>) -> (r: Result<
    Px,
    PriceRefusal,
>)
    requires
        -FARTHEST <= ceiling <= FARTHEST,
        bid matches Some(b) ==> b.wf(),
        ask matches Some(a) ==> a.wf(),
    ensures
        r == resting_bid(ceiling, held(bid), held(ask)),
        r matches Ok(p) ==> p <= ceiling && (ceiling > 0 ==> p > 0),
{
    let inside: Option<Ratio> = match bid {
        None => None,
        Some(b) => Some(micro_of(b).total(&Ratio::whole(CENT as i128))),
    };
    let under: Option<Ratio> = match ask {
        None => None,
        Some(a) => {
            let u: Ratio = micro_of(a).less_by(&Ratio::whole(CENT as i128));
            if u.above(0) {
                Some(u)
            } else {
                None
            }
        },
    };
    let touch: Ratio = match (inside, under) {
        (Some(i), Some(u)) => if i.below(&u) {
            i
        } else {
            u
        },
        (Some(i), None) => i,
        (None, Some(u)) => u,
        (None, None) => {
            if let Some(a) = ask {
                if !micro_of(a).above(ceiling as i128) {
                    return Err(PriceRefusal::NotBelowAsk { ask: six_of(a), px: ceiling });
                }
            }
            return Ok(ceiling);
        },
    };
    let best: Ratio = if touch.above(ceiling as i128) {
        Ratio::whole(ceiling as i128)
    } else {
        touch
    };
    proof {
        lemma_cents_below(best.at(), ceiling as int);
    }
    let p: Px = cents_of(&best);
    if p <= 0 {
        return Err(PriceRefusal::NoPassiveBid { px: p });
    }
    if let Some(a) = ask {
        if !micro_of(a).above(p as i128) {
            return Err(PriceRefusal::NotBelowAsk { ask: six_of(a), px: p });
        }
    }
    Ok(p)
}

} // verus!
