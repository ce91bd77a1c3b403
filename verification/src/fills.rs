//! What an order filled at, and when a venue's answer may be believed.
use crate::decimal::{below, fraction_of, per, read, rest_of_one, total, Decimal, Ratio};
use crate::money::{four_decimals, nearest};
use crate::text::{number, padded_number};
use crate::venue::Direction;
use vstd::prelude::*;
use vstd::string::StringExecFns;

verus! {

/// What a venue says that an order filled at.
#[derive(Debug)]
pub enum OrderFill {
    /// The cost of the contracts, of the side that the order ended up long.
    Notional {
        qty: String,
        taker_cost_usd: String,
        maker_cost_usd: String,
        /// Whether that side is the NO of the YES that was sold.
        complement: bool,
    },
    /// The average YES price.
    Average { avg_px: String },
}

/// The YES price of a fill, as a fraction of a dollar: the average, or the cost
/// per contract, of the one side or the other. `None` where a number cannot be
/// read or nothing filled.
pub open spec fn fill_ratio(f: OrderFill) -> Option<(int, int)> {
    match f {
        OrderFill::Notional { qty, taker_cost_usd, maker_cost_usd, complement } => {
            match (fraction_of(qty@), fraction_of(taker_cost_usd@), fraction_of(maker_cost_usd@)) {
                (Some(q), Some(t), Some(m)) if q.0 > 0 => Some(
                    if complement {
                        rest_of_one(per(total(t, m), q))
                    } else {
                        per(total(t, m), q)
                    },
                ),
                _ => None,
            }
        },
        OrderFill::Average { avg_px } => fraction_of(avg_px@),
    }
}

/// Whether a fill is no worse than a limit.
pub open spec fn within_limit(px: (int, int), limit: (int, int), selling: bool) -> bool {
    if selling {
        !below(px, limit)
    } else {
        !below(limit, px)
    }
}

/// The believable price of a fill, in ten-thousandths: strictly between
/// nothing and a dollar, and no worse than the limit that authorised it. Only
/// the answer is rounded.
pub open spec fn believed(f: OrderFill, limit: Seq<char>, selling: bool) -> Option<int> {
    match (fill_ratio(f), fraction_of(limit)) {
        (Some(px), Some(lim)) => if 0 < px.0 && px.0 < px.1 && within_limit(px, lim, selling) {
            Some(nearest(px.0 * 10_000, px.1))
        } else {
            None
        },
        _ => None,
    }
}

fn ratio(f: &OrderFill) -> (r: Option<Ratio>)
    ensures
        match fill_ratio(*f) {
            Some(px) => r matches Some(x) && x.wf() && x.at() == px,
            None => r is None,
        },
{
    match f {
        OrderFill::Notional { qty, taker_cost_usd, maker_cost_usd, complement } => {
            let q: Decimal = match read(qty.as_str()) {
                Some(x) => x,
                None => {
                    return None;
                },
            };
            if !q.is_positive() {
                return None;
            }
            match (Ratio::read(taker_cost_usd.as_str()), Ratio::read(maker_cost_usd.as_str())) {
                (Some(t), Some(m)) => {
                    let each: Ratio = t.total(&m).per(&q);
                    Some(
                        if *complement {
                            each.rest_of_one()
                        } else {
                            each
                        },
                    )
                },
                _ => None,
            }
        },
        OrderFill::Average { avg_px } => Ratio::read(avg_px.as_str()),
    }
}

/// The price that a leg filled at, with four decimals, or `None` to keep the
/// limit.
pub fn fill_price(f: &OrderFill, limit: &str, selling: bool) -> (r: Option<String>)
    ensures
        match believed(*f, limit@, selling) {
            Some(n) => r matches Some(t) && t@ == four_decimals(n),
            None => r is None,
        },
{
    let px: Ratio = match ratio(f) {
        Some(x) => x,
        None => {
            return None;
        },
    };
    let lim: Ratio = match Ratio::read(limit) {
        Some(x) => x,
        None => {
            return None;
        },
    };
    if !Ratio::of(0, 1).below(&px) || !px.below(&Ratio::of(1, 1)) {
        return None;
    }
    let worse: bool = if selling {
        px.below(&lim)
    } else {
        lim.below(&px)
    };
    if worse {
        return None;
    }
    let m: u64 = px.nearest_part(10_000);
    let mut s: String = "".to_owned();
    s.append(number(m / 10_000).as_str());
    s.append(".");
    s.append(padded_number(m % 10_000, 4).as_str());
    Some(s)
}

/// The price to book for a leg: what the venue says it filled at, where that
/// may be believed, and else the limit.
pub open spec fn booked_at(fill: Option<OrderFill>, limit: Seq<char>, selling: bool) -> Seq<char> {
    match fill {
        Some(f) => match believed(f, limit, selling) {
            Some(n) => four_decimals(n),
            None => limit,
        },
        None => limit,
    }
}

/// The price to book for a leg; `fill` is the venue's answer, if it gave one.
pub fn filled_price_or_limit(fill: &Option<OrderFill>, limit: &str, selling: bool) -> (r: String)
    ensures
        r@ == booked_at(*fill, limit@, selling),
{
    match fill {
        Some(f) => match fill_price(f, limit, selling) {
            Some(t) => t,
            None => limit.to_owned(),
        },
        None => limit.to_owned(),
    }
}

/// What flattening a basket at two prices claims to return per contract.
pub open spec fn gross(direction: Direction, k: (int, int), pm: (int, int)) -> (int, int) {
    match direction {
        Direction::Standard => total(k, rest_of_one(pm)),
        Direction::Inverse => total(pm, rest_of_one(k)),
    }
}

/// Whether a basket, which pays a dollar, can have returned this much: within
/// half a dollar of it.
pub open spec fn near_a_dollar(g: (int, int)) -> bool {
    below((1, 2), g) && below(g, (3, 2))
}

/// Whether two prices together are something that a flattened basket can have
/// paid.
pub open spec fn plausible(direction: Direction, k_px: Seq<char>, pm_px: Seq<char>) -> bool {
    match (fraction_of(k_px), fraction_of(pm_px)) {
        (Some(k), Some(pm)) => near_a_dollar(gross(direction, k, pm)),
        _ => false,
    }
}

/// Whether the two prices of an exit are plausible together, for a basket held
/// either way round.
pub fn plausible_pair_direction(direction: Direction, k_px: &str, pm_px: &str) -> (r: bool)
    ensures
        r == plausible(direction, k_px@, pm_px@),
{
    match (Ratio::read(k_px), Ratio::read(pm_px)) {
        (Some(k), Some(pm)) => {
            let g: Ratio = match direction {
                Direction::Standard => k.total(&pm.rest_of_one()),
                Direction::Inverse => pm.total(&k.rest_of_one()),
            };
            Ratio::of(1, 2).below(&g) && g.below(&Ratio::of(3, 2))
        },
        _ => false,
    }
}

/// Whether the two prices of a standard exit are plausible together.
pub fn plausible_pair(k_px: &str, pm_px: &str) -> (r: bool)
    ensures
        r == plausible(Direction::Standard, k_px@, pm_px@),
{
    plausible_pair_direction(Direction::Standard, k_px, pm_px)
}

/// A fill that is believed is strictly between nothing and a dollar and no
/// worse than the limit that authorised it.
pub proof fn law_a_believed_fill_is_no_worse_than_its_limit(
    f: OrderFill,
    limit: Seq<char>,
    selling: bool,
)
    requires
        believed(f, limit, selling) is Some,
    ensures
        fill_ratio(f) matches Some(px) && 0 < px.0 && px.0 < px.1 && within_limit(
            px,
            fraction_of(limit)->0,
            selling,
        ),
{
}

/// A sell read with its complement the wrong way round is not caught by its
/// limit, but the pair of prices is: where the true prices claim a dollar for
/// the basket, the inverted ones claim half a dollar more or less as soon as
/// the leg is a quarter away from fifty cents.
pub proof fn law_the_pair_catches_an_inverted_leg(k: (int, int), pm: (int, int))
    requires
        k.1 > 0,
        pm.1 > 0,
        ({
            let g = gross(Direction::Standard, k, pm);
            g.0 == g.1
        }),
        !below((1, 4), k) || !below(k, (3, 4)),
    ensures
        !near_a_dollar(gross(Direction::Standard, rest_of_one(k), pm)),
{
    let (a, b, c, d) = (k.0, k.1, pm.0, pm.1);
    assert(a * d + (d - c) * b == b * d ==> a * d == c * b) by (nonlinear_arith);
    assert((b - a) * d + (d - c) * b == 2 * (b * d) - a * d - c * b) by (nonlinear_arith);
    if !below((1, 4), k) {
        assert(4 * (a * d) <= b * d) by (nonlinear_arith)
            requires
                4 * a <= b,
                d > 0,
        ;
    } else {
        assert(4 * (a * d) >= 3 * (b * d)) by (nonlinear_arith)
            requires
                4 * a >= 3 * b,
                d > 0,
        ;
    }
}

} // verus!
