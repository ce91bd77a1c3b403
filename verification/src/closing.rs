//! Whether a resting exit still pays, what its other leg may trade at, and how
//! much of that leg is still owed.
use crate::assoc::{find, lookup};
use crate::board::EngineView;
use crate::decimal::{below, decimal_value, fraction_of, total, Ratio};
use crate::depth::{find_short, short_of};
use crate::digits::lemma_pow10_positive;
use crate::fees::FeeSchedule;
use crate::ladder::{penny_ladder, pennies, Rung};
use crate::ledger::{adds_up, expected_at_close, total_on, OpenLot};
use crate::live::PendingClose;
use crate::money::{
    far_ok, four_decimals, nearest, px4, px6, qty_ok, six_decimals, unit, Px, CENT, ONE,
};
use crate::order::Order;
use crate::pricing::{
    allowed, close_limit, costs_within, dearest_close, descend, exit_limit, free_bound, least_ask,
    lemma_free_bound, locked_ct, micro, micro_of, proper, reaches, six, PriceRefusal, EXIT_FLOOR,
    MAX_TICK_WALK, MIN_LOCK,
};
use crate::pricing_laws::{
    law_a_cheaper_close_costs_no_more, law_close_limit_is_the_highest_penny,
    law_exit_limit_is_the_lowest_penny, lemma_cost_is_lock, lemma_dearer_ask, lemma_lock_grows,
};
use crate::ratio::{dollars, less_by, FARTHEST};
use crate::text::{signed_number, signed_numeral};
use crate::venue::{Role, Shape};
use vstd::prelude::*;
use vstd::string::StringExecFns;

verus! {

/// Cycles in which a failed close is retried only where it pays, before it is
/// crossed out at any price.
pub const HEAL_PROFITABLE_CYCLES: u32 = 10;

/// Why a resting exit no longer pays.
#[derive(Clone, Copy, Debug, PartialEq, Eq, Structural)]
pub enum PayRefusal {
    /// A price of the exit or of the book is no price.
    NoPrice,
    /// The book of the other leg is gone.
    Dark,
    /// No price of this leg pays any more.
    Price(PriceRefusal),
    /// The bound has moved past the resting price.
    Moved { bound: Px },
    /// The ladder of the other leg no longer backs the whole quantity.
    Thin { depth: i64 },
}

/// Why a close cannot be priced.
#[derive(Clone, Copy, Debug, PartialEq, Eq, Structural)]
pub enum CloseRefusal {
    FillNoPrice,
    KalshiBasisNoPrice,
    PmBasisNoPrice,
    Price(PriceRefusal),
    NoTouch,
    TouchNoPrice,
    /// The touch is past what the close may trade at.
    Moved { limit: Px },
}

impl PayRefusal {
    pub open spec fn message(self, o: Order, touch: Seq<char>) -> Seq<char> {
        match (self, o.shape) {
            (PayRefusal::NoPrice, _) => "a price on the resting exit does not parse"@,
            (PayRefusal::Dark, Shape::RestKalshi) => "the PM-US book for "@
                + o.pm_market@
                + " has gone dark, so the close leg can no longer be valued"@,
            (PayRefusal::Dark, Shape::RestPmUs) => "the Kalshi book for "@
                + o.market@
                + " has gone dark, so the close leg can no longer be valued"@,
            (PayRefusal::Price(p), _) => p.message(),
            (PayRefusal::Moved { bound }, Shape::RestKalshi) => "the PM-US ask has moved to "@
                + touch
                + ", which puts the profit floor at "@
                + six_decimals(bound as int)
                + " — above the "@
                + o.limit@
                + " we are resting at, so a fill here would no longer lock 0.02/ct"@,
            (PayRefusal::Moved { bound }, Shape::RestPmUs) => "the Kalshi bid has moved to "@
                + touch
                + ", which puts the profit ceiling at "@
                + six_decimals(bound as int)
                + " — below the "@
                + o.limit@
                + " we are bidding, so a fill here would no longer lock 0.005/ct"@,
            (PayRefusal::Thin { depth }, _) => "the close ladder on "@
                + o.closes_on()@
                + " no longer backs the exit: its depth fell to "@
                + signed_numeral(depth as int)
                + ", under the "@
                + signed_numeral(o.qty as int)
                + " contract(s) resting"@,
        }
    }

    /// The refusal in words.
    pub fn text(&self, o: &Order, touch: &str) -> (r: String)
        ensures
            r@ == self.message(*o, touch@),
    {
        match (self, o.shape) {
            (PayRefusal::NoPrice, _) => "a price on the resting exit does not parse".to_owned(),
            (PayRefusal::Dark, Shape::RestKalshi) => {
                let mut s: String = "the PM-US book for ".to_owned();
                s.append(o.pm_market.as_str());
                s.append(" has gone dark, so the close leg can no longer be valued");
                s
            },
            (PayRefusal::Dark, Shape::RestPmUs) => {
                let mut s: String = "the Kalshi book for ".to_owned();
                s.append(o.market.as_str());
                s.append(" has gone dark, so the close leg can no longer be valued");
                s
            },
            (PayRefusal::Price(p), _) => {
                let mut s: String = p.text().as_str().to_owned();
                s
            },
            (PayRefusal::Moved { bound }, Shape::RestKalshi) => {
                let mut s: String = "the PM-US ask has moved to ".to_owned();
                s.append(touch);
                s.append(", which puts the profit floor at ");
                s.append(px6(*bound).as_str());
                s.append(" — above the ");
                s.append(o.limit.as_str());
                s.append(" we are resting at, so a fill here would no longer lock 0.02/ct");
                s
            },
            (PayRefusal::Moved { bound }, Shape::RestPmUs) => {
                let mut s: String = "the Kalshi bid has moved to ".to_owned();
                s.append(touch);
                s.append(", which puts the profit ceiling at ");
                s.append(px6(*bound).as_str());
                s.append(" — below the ");
                s.append(o.limit.as_str());
                s.append(" we are bidding, so a fill here would no longer lock 0.005/ct");
                s
            },
            (PayRefusal::Thin { depth }, _) => {
                let mut s: String = "the close ladder on ".to_owned();
                s.append(o.close_market());
                s.append(" no longer backs the exit: its depth fell to ");
                s.append(signed_number(*depth).as_str());
                s.append(", under the ");
                s.append(signed_number(o.qty).as_str());
                s.append(" contract(s) resting");
                s
            },
        }
    }
}

impl CloseRefusal {
    pub open spec fn message(self, o: Order, touch: Seq<char>) -> Seq<char> {
        match (self, o.shape) {
            (CloseRefusal::FillNoPrice, _) => "the fill price does not parse"@,
            (CloseRefusal::KalshiBasisNoPrice, _) => "the kalshi basis does not parse"@,
            (CloseRefusal::PmBasisNoPrice, _) => "the pm basis does not parse"@,
            (CloseRefusal::Price(p), _) => p.message(),
            (CloseRefusal::NoTouch, Shape::RestKalshi) => "no PM-US ask for "@
                + o.pm_market@
                + " in the engine's book"@,
            (CloseRefusal::NoTouch, Shape::RestPmUs) => "no Kalshi bid for "@
                + o.market@
                + " in the engine's book"@,
            (CloseRefusal::TouchNoPrice, Shape::RestKalshi) => "the pm ask does not parse"@,
            (CloseRefusal::TouchNoPrice, Shape::RestPmUs) => "the kalshi bid does not parse"@,
            (CloseRefusal::Moved { limit }, Shape::RestKalshi) => "the PM-US ask is "@
                + touch
                + " and the most this close may pay is "@
                + six_decimals(limit as int)
                + " — the book has moved against the exit since the bid was rested"@,
            (CloseRefusal::Moved { limit }, Shape::RestPmUs) => "the Kalshi bid is "@
                + touch
                + " and the least this close may accept is "@
                + six_decimals(limit as int)
                + " — the book has moved against the exit since the bid was rested"@,
        }
    }

    /// The refusal in words.
    pub fn text(&self, o: &Order, touch: &str) -> (r: String)
        ensures
            r@ == self.message(*o, touch@),
    {
        match (self, o.shape) {
            (CloseRefusal::FillNoPrice, _) => "the fill price does not parse".to_owned(),
            (CloseRefusal::KalshiBasisNoPrice, _) => "the kalshi basis does not parse".to_owned(),
            (CloseRefusal::PmBasisNoPrice, _) => "the pm basis does not parse".to_owned(),
            (CloseRefusal::Price(p), _) => {
                let mut s: String = p.text().as_str().to_owned();
                s
            },
            (CloseRefusal::NoTouch, Shape::RestKalshi) => {
                let mut s: String = "no PM-US ask for ".to_owned();
                s.append(o.pm_market.as_str());
                s.append(" in the engine's book");
                s
            },
            (CloseRefusal::NoTouch, Shape::RestPmUs) => {
                let mut s: String = "no Kalshi bid for ".to_owned();
                s.append(o.market.as_str());
                s.append(" in the engine's book");
                s
            },
            (CloseRefusal::TouchNoPrice, Shape::RestKalshi) => "the pm ask does not parse".to_owned(),
            (CloseRefusal::TouchNoPrice, Shape::RestPmUs) => "the kalshi bid does not parse".to_owned(),
            (CloseRefusal::Moved { limit }, Shape::RestKalshi) => {
                let mut s: String = "the PM-US ask is ".to_owned();
                s.append(touch);
                s.append(" and the most this close may pay is ");
                s.append(px6(*limit).as_str());
                s.append(" — the book has moved against the exit since the bid was rested");
                s
            },
            (CloseRefusal::Moved { limit }, Shape::RestPmUs) => {
                let mut s: String = "the Kalshi bid is ".to_owned();
                s.append(touch);
                s.append(" and the least this close may accept is ");
                s.append(px6(*limit).as_str());
                s.append(" — the book has moved against the exit since the bid was rested");
                s
            },
        }
    }
}

/// The touch that the close of an exit trades against: the PM-US ask where the
/// Kalshi leg rested, the Kalshi bid where the PM-US leg did.
pub open spec fn close_touch(o: Order, view: EngineView) -> Option<String> {
    match o.shape {
        Shape::RestKalshi => lookup(view.pm_ask@, o.pm_market@),
        Shape::RestPmUs => lookup(view.k_bid@, o.market@),
    }
}

/// The touch that the close of an exit trades against.
pub fn find_touch<'a>(o: &Order, view: &'a EngineView) -> (r: Option<&'a String>)
    ensures
        match r {
            Some(t) => close_touch(*o, *view) == Some(*t),
            None => close_touch(*o, *view) is None,
        },
{
    match o.shape {
        Shape::RestKalshi => find(&view.pm_ask, o.pm_market.as_str()),
        Shape::RestPmUs => find(&view.k_bid, o.market.as_str()),
    }
}

/// The bound that a resting exit must keep to: a floor for an ask, a ceiling
/// for a bid, re-derived from the other leg's touch one tick through.
pub open spec fn pay_bound(
    fees: FeeSchedule,
    shape: Shape,
    k_basis: (int, int),
    pm_basis: (int, int),
    touch: (int, int),
    qty: i64,
) -> Result<Px, PriceRefusal> {
    match shape {
        Shape::RestKalshi => least_ask(
            fees,
            pennies(),
            k_basis,
            pm_basis,
            total(touch, dollars(CENT as int)),
            qty,
            Role::Maker,
            Role::Taker,
            EXIT_FLOOR,
        ),
        Shape::RestPmUs => dearest_close(
            fees,
            less_by(touch, dollars(CENT as int)),
            k_basis,
            pm_basis,
            qty,
            Role::Taker,
            Role::Maker,
            EXIT_FLOOR,
        ),
    }
}

/// Why a resting exit no longer pays, if it does not: its price no longer
/// clears the bound, or the ladder of its other leg no longer backs it.
pub open spec fn pay_refusal(fees: FeeSchedule, o: Order, view: EngineView) -> Option<PayRefusal> {
    match price_refusal(fees, o, view) {
        Some(e) => Some(e),
        None => match short_of(o, view) {
            Some(depth) => Some(PayRefusal::Thin { depth }),
            None => None,
        },
    }
}

/// Why the price of a resting exit no longer pays, if it does not. It is valued
/// as an exit of a standard basket.
pub open spec fn price_refusal(fees: FeeSchedule, o: Order, view: EngineView) -> Option<PayRefusal> {
    match (fraction_of(o.k_basis@), fraction_of(o.pm_basis@), fraction_of(o.limit@)) {
        (Some(kb), Some(pb), Some(resting)) => match close_touch(o, view) {
            None => Some(PayRefusal::Dark),
            Some(t) => match fraction_of(t@) {
                None => Some(PayRefusal::NoPrice),
                Some(touch) => match pay_bound(fees, o.shape, kb, pb, touch, o.qty) {
                    Err(e) => Some(PayRefusal::Price(e)),
                    Ok(bound) => if match o.shape {
                        Shape::RestKalshi => below(micro(resting), (bound as int, 1)),
                        Shape::RestPmUs => below((bound as int, 1), micro(resting)),
                    } {
                        Some(PayRefusal::Moved { bound })
                    } else {
                        None
                    },
                },
            },
        },
        _ => Some(PayRefusal::NoPrice),
    }
}

/// Whether the resting price still clears the bound that the other leg's book
/// now implies, and that book still holds the whole quantity.
pub fn still_pays(fees: &FeeSchedule, o: &Order, view: &EngineView) -> (r: Result<(), PayRefusal>)
    requires
        fees.wf(),
        qty_ok(o.qty),
    ensures
        r == (match pay_refusal(*fees, *o, *view) {
            Some(e) => Err(e),
            None => Ok(()),
        }),
{
    match price_still_pays(fees, o, view) {
        Err(e) => Err(e),
        Ok(()) => match find_short(o, view) {
            Some(depth) => Err(PayRefusal::Thin { depth }),
            None => Ok(()),
        },
    }
}

fn price_still_pays(fees: &FeeSchedule, o: &Order, view: &EngineView) -> (r: Result<(), PayRefusal>)
    requires
        fees.wf(),
        qty_ok(o.qty),
    ensures
        r == (match price_refusal(*fees, *o, *view) {
            Some(e) => Err(e),
            None => Ok(()),
        }),
{
    let (k_basis, pm_basis, resting): (Ratio, Ratio, Ratio) = match (
        Ratio::read(o.k_basis.as_str()),
        Ratio::read(o.pm_basis.as_str()),
        Ratio::read(o.limit.as_str()),
    ) {
        (Some(a), Some(b), Some(c)) => (a, b, c),
        _ => {
            return Err(PayRefusal::NoPrice);
        },
    };
    let touch: Ratio = match find_touch(o, view) {
        None => {
            return Err(PayRefusal::Dark);
        },
        Some(t) => match Ratio::read(t.as_str()) {
            None => {
                return Err(PayRefusal::NoPrice);
            },
            Some(p) => p,
        },
    };
    let tick: Ratio = Ratio::dollars(CENT);
    match o.shape {
        Shape::RestKalshi => {
            let ladder: Vec<Rung> = penny_ladder();
            match exit_limit(
                fees,
                &ladder,
                &k_basis,
                &pm_basis,
                &touch.total(&tick),
                o.qty,
                Role::Maker,
                Role::Taker,
                EXIT_FLOOR,
            ) {
                Err(e) => Err(PayRefusal::Price(e)),
                Ok(bound) => if micro_of(&resting).under(bound as i128) {
                    Err(PayRefusal::Moved { bound })
                } else {
                    Ok(())
                },
            }
        },
        Shape::RestPmUs => {
            match close_limit(
                fees,
                &touch.less_by(&tick),
                &k_basis,
                &pm_basis,
                o.qty,
                Role::Taker,
                Role::Maker,
                EXIT_FLOOR,
            ) {
                Err(e) => Err(PayRefusal::Price(e)),
                Ok(bound) => if micro_of(&resting).above(bound as i128) {
                    Err(PayRefusal::Moved { bound })
                } else {
                    Ok(())
                },
            }
        },
    }
}

/// What the second leg may trade at, given what the first one filled at: the
/// most that a buy may pay, the least that a sale may take.
pub open spec fn close_bound(
    fees: FeeSchedule,
    shape: Shape,
    fill: (int, int),
    k_basis: (int, int),
    pm_basis: (int, int),
    qty: i64,
) -> Result<Px, PriceRefusal> {
    match shape {
        Shape::RestKalshi => dearest_close(
            fees,
            fill,
            k_basis,
            pm_basis,
            qty,
            Role::Maker,
            Role::Taker,
            MIN_LOCK,
        ),
        Shape::RestPmUs => least_ask(
            fees,
            pennies(),
            k_basis,
            pm_basis,
            fill,
            qty,
            Role::Taker,
            Role::Maker,
            MIN_LOCK,
        ),
    }
}

/// The limit of a closing order, or why there is none, of the price at which
/// the first leg filled, the two bases and the touch: each `None` where it is no
/// price, and the touch where there is none at all.
pub open spec fn close_at(
    fees: FeeSchedule,
    shape: Shape,
    fill: Option<(int, int)>,
    k_basis: Option<(int, int)>,
    pm_basis: Option<(int, int)>,
    filled: i64,
    touch: Option<Option<(int, int)>>,
) -> Result<Px, CloseRefusal> {
    match (fill, k_basis, pm_basis) {
        (None, _, _) => Err(CloseRefusal::FillNoPrice),
        (_, None, _) => Err(CloseRefusal::KalshiBasisNoPrice),
        (_, _, None) => Err(CloseRefusal::PmBasisNoPrice),
        (Some(fill), Some(kb), Some(pb)) => match close_bound(fees, shape, fill, kb, pb, filled) {
            Err(e) => Err(CloseRefusal::Price(e)),
            Ok(limit) => match touch {
                None => Err(CloseRefusal::NoTouch),
                Some(None) => Err(CloseRefusal::TouchNoPrice),
                Some(Some(t)) => if match shape {
                    Shape::RestKalshi => below((limit as int, 1), micro(t)),
                    Shape::RestPmUs => below(micro(t), (limit as int, 1)),
                } {
                    Err(CloseRefusal::Moved { limit })
                } else {
                    Ok(limit)
                },
            },
        },
    }
}

/// A price that was read, or that is none.
pub open spec fn known(x: Option<Ratio>) -> Option<(int, int)> {
    match x {
        Some(r) => Some(r.at()),
        None => None,
    }
}

/// A touch that was read.
pub open spec fn seen(x: Option<Option<Ratio>>) -> Option<Option<(int, int)>> {
    match x {
        Some(r) => Some(known(r)),
        None => None,
    }
}

/// The limit of a closing order, of prices that were read.
pub fn find_close_at(
    fees: &FeeSchedule,
    shape: Shape,
    fill: &Option<Ratio>,
    k_basis: &Option<Ratio>,
    pm_basis: &Option<Ratio>,
    filled: i64,
    touch: &Option<Option<Ratio>>,
) -> (r: Result<Px, CloseRefusal>)
    requires
        fees.wf(),
        qty_ok(filled),
        fill matches Some(p) ==> p.wf(),
        k_basis matches Some(p) ==> p.wf(),
        pm_basis matches Some(p) ==> p.wf(),
        touch matches Some(Some(p)) ==> p.wf(),
    ensures
        r == close_at(
            *fees,
            shape,
            known(*fill),
            known(*k_basis),
            known(*pm_basis),
            filled,
            seen(*touch),
        ),
        r matches Ok(p) ==> -FARTHEST <= p <= FARTHEST,
{
    let (fill, k_basis, pm_basis): (&Ratio, &Ratio, &Ratio) = match (fill, k_basis, pm_basis) {
        (None, _, _) => {
            return Err(CloseRefusal::FillNoPrice);
        },
        (_, None, _) => {
            return Err(CloseRefusal::KalshiBasisNoPrice);
        },
        (_, _, None) => {
            return Err(CloseRefusal::PmBasisNoPrice);
        },
        (Some(a), Some(b), Some(c)) => (a, b, c),
    };
    let bound: Result<Px, PriceRefusal> = match shape {
        Shape::RestKalshi => close_limit(
            fees,
            fill,
            k_basis,
            pm_basis,
            filled,
            Role::Maker,
            Role::Taker,
            MIN_LOCK,
        ),
        Shape::RestPmUs => {
            let ladder: Vec<Rung> = penny_ladder();
            exit_limit(
                fees,
                &ladder,
                k_basis,
                pm_basis,
                fill,
                filled,
                Role::Taker,
                Role::Maker,
                MIN_LOCK,
            )
        },
    };
    let limit: Px = match bound {
        Err(e) => {
            return Err(CloseRefusal::Price(e));
        },
        Ok(p) => p,
    };
    let touch: &Ratio = match touch {
        None => {
            return Err(CloseRefusal::NoTouch);
        },
        Some(None) => {
            return Err(CloseRefusal::TouchNoPrice);
        },
        Some(Some(t)) => t,
    };
    let past: bool = match shape {
        Shape::RestKalshi => micro_of(touch).above(limit as i128),
        Shape::RestPmUs => micro_of(touch).under(limit as i128),
    };
    if past {
        return Err(CloseRefusal::Moved { limit });
    }
    Ok(limit)
}

/// The price that a published text spells, where there is a text.
pub open spec fn read_touch(t: Option<String>) -> Option<Option<(int, int)>> {
    match t {
        None => None,
        Some(t) => Some(fraction_of(t@)),
    }
}

/// The limit of the closing order, or why there is none. The fill is taken to
/// be at the order's own limit.
pub open spec fn close_price(fees: FeeSchedule, o: Order, filled: i64, view: EngineView) -> Result<
    Px,
    CloseRefusal,
> {
    close_at(
        fees,
        o.shape,
        fraction_of(o.limit@),
        fraction_of(o.k_basis@),
        fraction_of(o.pm_basis@),
        filled,
        read_touch(close_touch(o, view)),
    )
}

/// A price as it goes on the wire.
pub open spec fn on_wire(p: Px) -> Seq<char> {
    four_decimals(nearest(p as int, 100))
}

/// Prices the second leg of an exit whose first leg filled: against the book
/// as it is now, and refused where that no longer pays.
pub fn price_close(fees: &FeeSchedule, o: &Order, filled: i64, view: &EngineView) -> (r: Result<
    String,
    CloseRefusal,
>)
    requires
        fees.wf(),
        qty_ok(filled),
    ensures
        match close_price(*fees, *o, filled, *view) {
            Ok(p) => r matches Ok(t) && t@ == on_wire(p),
            Err(e) => r == Err::<String, CloseRefusal>(e),
        },
{
    match find_close_price(fees, o, filled, view) {
        Ok(p) => Ok(px4(p)),
        Err(e) => Err(e),
    }
}

/// The limit of the closing order, before it is written for the wire.
pub fn find_close_price(fees: &FeeSchedule, o: &Order, filled: i64, view: &EngineView) -> (r: Result<
    Px,
    CloseRefusal,
>)
    requires
        fees.wf(),
        qty_ok(filled),
    ensures
        r == close_price(*fees, *o, filled, *view),
        r matches Ok(p) ==> far_ok(p),
{
    let touch: Option<Option<Ratio>> = match find_touch(o, view) {
        None => None,
        Some(t) => Some(Ratio::read(t.as_str())),
    };
    let fill: Option<Ratio> = Ratio::read(o.limit.as_str());
    let k_basis: Option<Ratio> = Ratio::read(o.k_basis.as_str());
    let pm_basis: Option<Ratio> = Ratio::read(o.pm_basis.as_str());
    find_close_at(fees, o.shape, &fill, &k_basis, &pm_basis, filled, &touch)
}

// ------------------------------------------------------------ what is owed

/// Contracts in the unit in which venues report positions: a millionth.
pub const CONTRACT: i128 = 1_000_000;

/// The nearest whole number of contracts, halves away from zero.
pub open spec fn contracts(micro: int) -> int {
    if micro >= 0 {
        (micro + 500_000) / 1_000_000
    } else {
        -((500_000 - micro) / 1_000_000)
    }
}

/// The nearest whole number of contracts.
pub fn whole_contracts(micro: i128) -> (r: i128)
    requires
        -1_000_000_000_000_000_000_000_000_000_000 <= micro
            <= 1_000_000_000_000_000_000_000_000_000_000,
    ensures
        r == contracts(micro as int),
{
    if micro >= 0 {
        (micro + 500_000) / 1_000_000
    } else {
        -((500_000 - micro) / 1_000_000)
    }
}

/// How many contracts of the open leg a venue says are still held: the PM-US
/// leg is short, and so a negative count; the Kalshi leg is long.
pub open spec fn still_held(shape: Shape, venue_net: int) -> int {
    let signed = match shape {
        Shape::RestKalshi => -venue_net,
        Shape::RestPmUs => venue_net,
    };
    if contracts(signed) > 0 {
        contracts(signed)
    } else {
        0
    }
}

/// How many contracts a pending close still owes: what its first leg traded,
/// less what is already gone from the open leg, and never more than the first
/// leg traded.
pub open spec fn still_owed(shape: Shape, filled: int, ledger_qty: int, venue_net: int) -> int {
    let held = still_held(shape, venue_net);
    let already = if ledger_qty > held {
        ledger_qty - held
    } else {
        0
    };
    if filled > already {
        filled - already
    } else {
        0
    }
}

/// How many contracts a pending close still owes, measured at the venue. `lots`
/// are the ledger's open ones, and `venue_net` the venue's count of YES contracts
/// on the open leg's market, in millionths.
pub fn close_shortfall(lots: &Vec<OpenLot>, p: &PendingClose, venue_net: i64) -> (r: i64)
    requires
        p.filled >= 0,
        adds_up(lots@, p.order.shape.closes_at(), p.order.closes_on()@),
    ensures
        r == still_owed(
            p.order.shape,
            p.filled as int,
            total_on(lots@, p.order.shape.closes_at(), p.order.closes_on()@, lots@.len()),
            venue_net as int,
        ),
        0 <= r <= p.filled,
{
    shortfall(expected_at_close(lots, &p.order), p, venue_net)
}

/// How many contracts a pending close still owes, of what the ledger's open lots
/// hold on the open leg's market.
pub fn shortfall(ledger_qty: i64, p: &PendingClose, venue_net: i64) -> (r: i64)
    requires
        p.filled >= 0,
    ensures
        r == still_owed(p.order.shape, p.filled as int, ledger_qty as int, venue_net as int),
        0 <= r <= p.filled,
{
    let signed: i128 = match p.order.shape {
        Shape::RestKalshi => -(venue_net as i128),
        Shape::RestPmUs => venue_net as i128,
    };
    let rounded: i128 = whole_contracts(signed);
    let held: i128 = if rounded > 0 {
        rounded
    } else {
        0
    };
    let already: i128 = if ledger_qty as i128 > held {
        ledger_qty as i128 - held
    } else {
        0
    };
    if p.filled as i128 > already {
        (p.filled as i128 - already) as i64
    } else {
        0
    }
}

// --------------------------------------------------------------------- laws

/// A resting exit that is kept would still lock the selection floor if it
/// filled now and its other leg were crossed one tick through the touch. It
/// rests on a whole cent, no higher than a dollar.
pub proof fn law_a_kept_exit_still_locks_the_floor(
    fees: FeeSchedule,
    o: Order,
    view: EngineView,
    k_basis: (int, int),
    pm_basis: (int, int),
    resting: Px,
    touch: (int, int),
)
    requires
        fees.wf(),
        qty_ok(o.qty),
        pay_refusal(fees, o, view) is None,
        fraction_of(o.k_basis@) == Some(k_basis),
        fraction_of(o.pm_basis@) == Some(pm_basis),
        fraction_of(o.limit@) matches Some(x) && micro(x).0 == resting * x.1,
        read_touch(close_touch(o, view)) == Some(Some(touch)),
        0 <= resting <= ONE,
        resting % CENT == 0,
    ensures
        reaches(
            match o.shape {
                Shape::RestKalshi => locked_ct(
                    fees,
                    (Role::Maker, Role::Taker),
                    dollars(resting as int),
                    total(touch, dollars(CENT as int)),
                    k_basis,
                    pm_basis,
                    o.qty,
                ),
                Shape::RestPmUs => locked_ct(
                    fees,
                    (Role::Taker, Role::Maker),
                    less_by(touch, dollars(CENT as int)),
                    dollars(resting as int),
                    k_basis,
                    pm_basis,
                    o.qty,
                ),
            },
            EXIT_FLOOR,
        ),
{
    let bound = pay_bound(fees, o.shape, k_basis, pm_basis, touch, o.qty)->Ok_0;
    let x = fraction_of(o.limit@)->0;
    lemma_read_is_proper(o.k_basis@);
    lemma_read_is_proper(o.pm_basis@);
    lemma_read_is_proper(o.limit@);
    lemma_read_is_proper(close_touch(o, view)->0@);
    let (r, b, d) = (resting as int, bound as int, x.1);
    let m = micro(x);
    assert(m.0 == r * d && m.1 == d);
    assert(m.0 * 1 == m.0);
    assert(b * m.1 == b * d);
    match o.shape {
        Shape::RestKalshi => {
            let close = total(touch, dollars(CENT as int));
            law_exit_limit_is_the_lowest_penny(
                fees,
                k_basis,
                pm_basis,
                close,
                o.qty,
                Role::Maker,
                Role::Taker,
                EXIT_FLOOR,
                bound,
            );
            assert(!below(micro(x), (b, 1)));
            assert(b <= r) by (nonlinear_arith)
                requires
                    !(r * d < b * d),
                    d > 0,
            ;
            lemma_dearer_ask(fees, Role::Maker, o.qty, b, r);
            lemma_lock_grows(
                fees,
                (Role::Maker, Role::Taker),
                dollars(b),
                close,
                k_basis,
                pm_basis,
                dollars(r),
                close,
                k_basis,
                o.qty,
                EXIT_FLOOR,
            );
        },
        Shape::RestPmUs => {
            let k_take = less_by(touch, dollars(CENT as int));
            law_close_limit_is_the_highest_penny(
                fees,
                k_take,
                k_basis,
                pm_basis,
                o.qty,
                Role::Taker,
                Role::Maker,
                EXIT_FLOOR,
                bound,
            );
            assert(!below((b, 1), micro(x)));
            assert(r <= b) by (nonlinear_arith)
                requires
                    !(b * d < r * d),
                    d > 0,
            ;
            let most: int = if b <= ONE {
                b
            } else {
                ONE as int
            };
            if b > ONE {
                lemma_a_dollar_fits(fees, k_take, k_basis, pm_basis, o.qty, bound);
            }
            law_a_cheaper_close_costs_no_more(
                fees,
                Role::Maker,
                o.qty,
                dollars(r),
                dollars(most),
            );
            lemma_lock_grows(
                fees,
                (Role::Taker, Role::Maker),
                k_take,
                dollars(most),
                k_basis,
                pm_basis,
                k_take,
                dollars(r),
                k_basis,
                o.qty,
                EXIT_FLOOR,
            );
        },
    }
}

/// A price that is read has a denominator.
pub proof fn lemma_read_is_proper(s: Seq<char>)
    ensures
        fraction_of(s) matches Some(x) ==> proper(x),
{
    if let Some((n, k)) = decimal_value(s) {
        lemma_pow10_positive(k);
    }
}

proof fn lemma_a_dollar_fits(
    fees: FeeSchedule,
    k_take: (int, int),
    k_basis: (int, int),
    pm_basis: (int, int),
    qty: i64,
    bound: Px,
)
    requires
        fees.wf(),
        qty_ok(qty),
        proper(k_take),
        proper(k_basis),
        proper(pm_basis),
        bound > ONE,
        dearest_close(
            fees,
            k_take,
            k_basis,
            pm_basis,
            qty,
            Role::Taker,
            Role::Maker,
            EXIT_FLOOR,
        ) == Ok::<Px, PriceRefusal>(bound),
    ensures
        reaches(
            locked_ct(
                fees,
                (Role::Taker, Role::Maker),
                k_take,
                dollars(ONE as int),
                k_basis,
                pm_basis,
                qty,
            ),
            EXIT_FLOOR,
        ),
{
    let u = unit(qty);
    let cap = allowed(fees, k_take, k_basis, pm_basis, qty, Role::Taker, EXIT_FLOOR);
    lemma_cost_is_lock(
        fees,
        ONE,
        k_take,
        k_basis,
        pm_basis,
        qty,
        Role::Taker,
        Role::Maker,
        EXIT_FLOOR,
    );
    lemma_free_bound(cap, qty);
    let top = free_bound(cap, qty);
    lemma_descend_falls(
        fees,
        Role::Maker,
        qty,
        cap,
        six(k_take),
        top as i64,
        MAX_TICK_WALK as nat,
    );
    let rate = fees.pmus_maker as int;
    assert(fees.fee_on(crate::venue::Venue::PolymarketUs, Role::Maker, ONE as int, qty as int)
        == 0) by {
        assert(rate * (ONE * (ONE - ONE)) * qty == 0) by (nonlinear_arith)
            requires
                ONE - ONE == 0,
        ;
    }
    let (one, c) = (ONE as int, cap.1);
    assert((one * u) * c <= (top * u) * c) by (nonlinear_arith)
        requires
            one <= top,
            u > 0,
            c > 0,
    ;
    assert(costs_within(fees, Role::Maker, qty, cap, ONE as int));
}

pub proof fn lemma_descend_falls(
    fees: FeeSchedule,
    pm_role: Role,
    qty: i64,
    cap: (int, int),
    k_fill: Px,
    p: Px,
    n: nat,
)
    ensures
        descend(fees, pm_role, qty, cap, k_fill, p, n) matches Ok(x) ==> x <= p,
    decreases n,
{
    if n > 0 && p > 0 {
        lemma_descend_falls(fees, pm_role, qty, cap, k_fill, (p - CENT) as i64, (n - 1) as nat);
    }
}

/// What a close owes lies between nothing and what its first leg traded.
/// Nothing is owed once the venue holds none of the leg and the ledger claims
/// as much as was traded; all of it is owed while the venue holds what the
/// ledger claims; and a position on the wrong side of zero owes nothing more.
pub proof fn law_the_shortfall_is_measured_at_the_venue(
    shape: Shape,
    filled: int,
    ledger_qty: int,
    held: int,
)
    requires
        filled >= 0,
        ledger_qty >= filled,
        held >= 0,
    ensures
        ({
            let net = match shape {
                Shape::RestKalshi => -(held * 1_000_000),
                Shape::RestPmUs => held * 1_000_000,
            };
            &&& 0 <= still_owed(shape, filled, ledger_qty, net) <= filled
            &&& still_owed(shape, filled, ledger_qty, 0) == 0
            &&& held >= ledger_qty ==> still_owed(shape, filled, ledger_qty, net) == filled
            &&& still_owed(shape, filled, ledger_qty, -net) == (if held == 0 {
                still_owed(shape, filled, ledger_qty, 0)
            } else {
                0
            })
        }),
{
    assert((held * 1_000_000 + 500_000) / 1_000_000 == held);
    assert((500_000 + held * 1_000_000) / 1_000_000 == held);
}

} // verus!
