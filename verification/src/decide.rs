//! The decision: whether one candidate may be exited now, which leg rests, at
//! what price, and whether crossing both legs is worth the spread.
use crate::assoc::{find, lookup};
use crate::board::{elapsed, elapsed_ns, seconds, seconds_text, EngineView, MarketSide};
use crate::closing::known;
use crate::decimal::{below, fraction_of, total, Ratio};
use crate::depth::{fit, fitted, left};
use crate::fees::FeeSchedule;
use crate::gauges::{refuse, Gauges};
use crate::ladder::{ladder_ok, legal, legal_ladder, Rung};
use crate::lot::{close_depth_key, depth_key};
use crate::money::{
    far_ok, four_decimals, nearest, px4, px6, qty_ok, six_decimals, to_wire, wire, Px, CENT,
};
use crate::order::{lift_side, rest_side, spells, Cross, Order};
use crate::pricing::{
    at_least, close_limit, dearest_close, exit_limit, held, least_ask, lock_per_ct, locked_ct,
    quantize, quantized, reaches, rest_price, rest_price_bid, resting_ask, resting_bid, six,
    six_of, PriceRefusal, EXIT_FLOOR,
};
use crate::ratio::{dollars, less_by, shown};
use crate::text::{numeral, same, signed_number, signed_numeral};
use crate::venue::{Direction, Role, Shape, Side};
use vstd::prelude::*;
use vstd::string::StringExecFns;

verus! {

/// Contracts in one resting exit.
pub const MAX_CLIP: i64 = 5;

/// How long the entry quoter is given to yield a side, in nanoseconds.
pub const SUPPRESS_SETTLE_NS: u64 = 30_000_000_000;

/// A candidate that the selector chose.
#[derive(Debug)]
pub struct Exit {
    pub rel_id: String,
    /// The Kalshi ticker.
    pub market_id: String,
    /// When the lot was opened, as the bits of its seconds.
    pub opened_ts: u64,
    pub qty: i64,
    /// Whether the relationship is in this process's scope.
    pub actionable: bool,
}

impl Clone for Exit {
    fn clone(&self) -> (r: Self)
        ensures
            r == *self,
    {
        Exit {
            rel_id: self.rel_id.clone(),
            market_id: self.market_id.clone(),
            opened_ts: self.opened_ts,
            qty: self.qty,
            actionable: self.actionable,
        }
    }
}

/// A fresh read of a Kalshi market.
#[derive(Debug)]
pub struct Quote {
    pub market: String,
    pub status: String,
    pub yes_bid: Option<String>,
    pub yes_ask: Option<String>,
    pub ladder: Vec<Rung>,
}

/// What the ledger says of one leg of the selected lot.
#[derive(Debug)]
pub struct Lot {
    pub qty: i64,
    /// What one contract cost, fees and all.
    pub cost_per_ct: String,
    /// When the record was opened, as the bits of its seconds.
    pub open_ts: u64,
}

/// Why one shape is not a contender.
#[derive(Clone, Copy, Debug, PartialEq, Eq, Structural)]
pub enum ShapeRefusal {
    /// It cannot be priced.
    Price(PriceRefusal),
    /// There is no Kalshi bid to sell into.
    NoKalshiBid,
    /// One tick under the Kalshi bid is not a price.
    BidIsNoPrice { bid: Px },
    /// It can be priced and locks too little.
    UnderFloor { limit: Px, lock: Px },
    /// Nothing is left of the ladder that its close would trade against.
    NoDepth,
}

/// Why a candidate is not exited now.
#[derive(Clone, Copy, Debug, PartialEq, Eq, Structural)]
pub enum DecideRefusal {
    OutOfScope,
    NotActive,
    /// The engine owes a hedge on the market.
    Inflight,
    NoPmAsk,
    BadPmAsk,
    /// The ledger vouches for no Kalshi leg.
    KalshiLot,
    /// The ledger vouches for no PM-US leg.
    PmLot,
    NothingToExit { k: i64, pm: i64, marks: i64 },
    BadKalshiBasis,
    BadPmBasis,
    NeitherPays { a: ShapeRefusal, b: ShapeRefusal },
    /// The entry quoter was not told to yield the side.
    NotYielded { shape: Shape },
    /// It was, but not long enough ago.
    Settling { shape: Shape, age_ns: u64 },
}

fn rest_side_market<'a>(shape: Shape, market: &'a str, pm: &'a str) -> (r: &'a str)
    ensures
        r@ == rest_side(shape, market@, pm@).0,
{
    match shape {
        Shape::RestKalshi => market,
        Shape::RestPmUs => pm,
    }
}

fn rest_side_name(shape: Shape) -> (r: &'static str)
    ensures
        forall|m: Seq<char>, p: Seq<char>| r@ == #[trigger] rest_side(shape, m, p).1,
{
    match shape {
        Shape::RestKalshi => Side::Ask.as_str(),
        Shape::RestPmUs => Side::Bid.as_str(),
    }
}

impl ShapeRefusal {
    pub open spec fn message(self, market: Seq<char>) -> Seq<char> {
        match self {
            ShapeRefusal::Price(p) => p.message(),
            ShapeRefusal::NoKalshiBid => market
                + " has no Kalshi bid — the leg this shape SELLS into is unpriceable"@,
            ShapeRefusal::BidIsNoPrice { bid } => "the Kalshi bid is "@
                + six_decimals(bid as int)
                + " — one tick under it is not a price to sell at"@,
            ShapeRefusal::UnderFloor { limit, lock } => "priced at "@
                + six_decimals(limit as int)
                + " but locks only "@
                + six_decimals(lock as int)
                + "/ct, under the 0.02/ct floor the selector admitted it under"@,
            ShapeRefusal::NoDepth => "nothing is left of the ladder its close would trade against"@,
        }
    }

    /// The refusal in words.
    pub fn text(&self, market: &str) -> (r: String)
        ensures
            r@ == self.message(market@),
    {
        match self {
            ShapeRefusal::Price(p) => {
                let mut s: String = p.text().as_str().to_owned();
                s
            },
            ShapeRefusal::NoKalshiBid => {
                let mut s: String = market.to_owned();
                s.append(" has no Kalshi bid — the leg this shape SELLS into is unpriceable");
                s
            },
            ShapeRefusal::BidIsNoPrice { bid } => {
                let mut s: String = "the Kalshi bid is ".to_owned();
                s.append(px6(*bid).as_str());
                s.append(" — one tick under it is not a price to sell at");
                s
            },
            ShapeRefusal::UnderFloor { limit, lock } => {
                let mut s: String = "priced at ".to_owned();
                s.append(px6(*limit).as_str());
                s.append(" but locks only ");
                s.append(px6(*lock).as_str());
                s.append("/ct, under the 0.02/ct floor the selector admitted it under");
                s
            },
            ShapeRefusal::NoDepth =>
                "nothing is left of the ladder its close would trade against".to_owned(),
        }
    }
}

impl DecideRefusal {
    pub open spec fn message(self, cand: Exit, pm_market: &str, quote: Quote, why: &str) -> Seq<char> {
        match self {
            DecideRefusal::OutOfScope => cand.rel_id@
                + " is outside this process's --rel-prefix scope — it is not ours to exit (unwind §1)"@,
            DecideRefusal::NotActive => "Kalshi reports "@
                + cand.market_id@
                + " as `"@
                + quote.status@
                + "`, not `active` — a market that is not trading takes no order, whatever the marks file says. This is the guard `unwind::Skip::NotPriceable` cannot be: a priced row in a FROZEN marks file is not evidence of a live book."@,
            DecideRefusal::Inflight => "not resting an exit on "@
                + cand.market_id@
                + ": "@
                + why@
                + ". Our ask would be the maker in that collision and the engine's hedge IOC the taker, which is the order taker_at_cross cancels"@,
            DecideRefusal::NoPmAsk => "no PM-US ask for "@
                + pm_market@
                + " in the engine's book — the close leg is unpriceable, so the exit is unpriceable. An exit whose second leg cannot be valued is a one-legged trade with a number on it."@,
            DecideRefusal::BadPmAsk => pm_market@
                + " quoted an unparseable ask "@
                + why@,
            DecideRefusal::KalshiLot => "Kalshi leg: "@
                + why@,
            DecideRefusal::PmLot => "PM-US leg: "@
                + why@,
            DecideRefusal::NothingToExit { k, pm, marks } => "nothing to exit on "@
                + cand.rel_id@
                + ": kalshi lot "@
                + signed_numeral(k as int)
                + ", pm lot "@
                + signed_numeral(pm as int)
                + ", marks "@
                + signed_numeral(marks as int),
            DecideRefusal::BadKalshiBasis => "unparseable Kalshi basis "@
                + why@,
            DecideRefusal::BadPmBasis => "unparseable PM-US basis "@
                + why@,
            DecideRefusal::NeitherPays { a, b } => "neither exit shape pays on "@
                + cand.rel_id@
                + ". rest-kalshi: "@
                + a.message(cand.market_id@)
                + ". rest-pmus: "@
                + b.message(cand.market_id@),
            DecideRefusal::NotYielded { shape } => "the entry quoter has not yet been told to yield "@
                + rest_side(shape, cand.market_id@, pm_market@).0
                + ":"@
                + rest_side(shape, cand.market_id@, pm_market@).1
                + " — asked for it this cycle; nothing rests until it has (unwind §5, card ed6a5910)"@,
            DecideRefusal::Settling { shape, age_ns } => rest_side(shape, cand.market_id@, pm_market@).0
                + ":"@
                + rest_side(shape, cand.market_id@, pm_market@).1
                + " was yielded "@
                + numeral(seconds(age_ns as int))
                + "s ago; giving it 30s to cancel before resting against it"@,
        }
    }

    /// The refusal in words. `why` is the reason that came from outside, or the
    /// quoted text that is no price.
    pub fn text(&self, cand: &Exit, pm_market: &str, quote: &Quote, why: &str) -> (r: String)
        ensures
            r@ == self.message(*cand, pm_market, *quote, why),
    {
        match self {
            DecideRefusal::OutOfScope => {
                let mut s: String = cand.rel_id.as_str().to_owned();
                s.append(" is outside this process's --rel-prefix scope — it is not ours to exit (unwind §1)");
                s
            },
            DecideRefusal::NotActive => {
                let mut s: String = "Kalshi reports ".to_owned();
                s.append(cand.market_id.as_str());
                s.append(" as `");
                s.append(quote.status.as_str());
                s.append("`, not `active` — a market that is not trading takes no order, whatever the marks file says. This is the guard `unwind::Skip::NotPriceable` cannot be: a priced row in a FROZEN marks file is not evidence of a live book.");
                s
            },
            DecideRefusal::Inflight => {
                let mut s: String = "not resting an exit on ".to_owned();
                s.append(cand.market_id.as_str());
                s.append(": ");
                s.append(why);
                s.append(". Our ask would be the maker in that collision and the engine's hedge IOC the taker, which is the order taker_at_cross cancels");
                s
            },
            DecideRefusal::NoPmAsk => {
                let mut s: String = "no PM-US ask for ".to_owned();
                s.append(pm_market);
                s.append(" in the engine's book — the close leg is unpriceable, so the exit is unpriceable. An exit whose second leg cannot be valued is a one-legged trade with a number on it.");
                s
            },
            DecideRefusal::BadPmAsk => {
                let mut s: String = pm_market.to_owned();
                s.append(" quoted an unparseable ask ");
                s.append(why);
                s
            },
            DecideRefusal::KalshiLot => {
                let mut s: String = "Kalshi leg: ".to_owned();
                s.append(why);
                s
            },
            DecideRefusal::PmLot => {
                let mut s: String = "PM-US leg: ".to_owned();
                s.append(why);
                s
            },
            DecideRefusal::NothingToExit { k, pm, marks } => {
                let mut s: String = "nothing to exit on ".to_owned();
                s.append(cand.rel_id.as_str());
                s.append(": kalshi lot ");
                s.append(signed_number(*k).as_str());
                s.append(", pm lot ");
                s.append(signed_number(*pm).as_str());
                s.append(", marks ");
                s.append(signed_number(*marks).as_str());
                s
            },
            DecideRefusal::BadKalshiBasis => {
                let mut s: String = "unparseable Kalshi basis ".to_owned();
                s.append(why);
                s
            },
            DecideRefusal::BadPmBasis => {
                let mut s: String = "unparseable PM-US basis ".to_owned();
                s.append(why);
                s
            },
            DecideRefusal::NeitherPays { a, b } => {
                let mut s: String = "neither exit shape pays on ".to_owned();
                s.append(cand.rel_id.as_str());
                s.append(". rest-kalshi: ");
                s.append(a.text(cand.market_id.as_str()).as_str());
                s.append(". rest-pmus: ");
                s.append(b.text(cand.market_id.as_str()).as_str());
                s
            },
            DecideRefusal::NotYielded { shape } => {
                let mut s: String = "the entry quoter has not yet been told to yield ".to_owned();
                s.append(rest_side_market(*shape, cand.market_id.as_str(), pm_market));
                s.append(":");
                s.append(rest_side_name(*shape));
                s.append(" — asked for it this cycle; nothing rests until it has (unwind §5, card ed6a5910)");
                s
            },
            DecideRefusal::Settling { shape, age_ns } => {
                let mut s: String = rest_side_market(*shape, cand.market_id.as_str(), pm_market).to_owned();
                s.append(":");
                s.append(rest_side_name(*shape));
                s.append(" was yielded ");
                s.append(seconds_text(*age_ns).as_str());
                s.append("s ago; giving it 30s to cancel before resting against it");
                s
            },
        }
    }
}

// ------------------------------------------------------------ yielded sides

/// When a side was yielded.
pub open spec fn yielded_at(m: Seq<(MarketSide, u64)>, side: (Seq<char>, Seq<char>)) -> Option<
    u64,
>
    decreases m.len(),
{
    if m.len() == 0 {
        None
    } else if spells(m[0].0, side) {
        Some(m[0].1)
    } else {
        yielded_at(m.drop_first(), side)
    }
}

proof fn lemma_yielded_skip(m: Seq<(MarketSide, u64)>, side: (Seq<char>, Seq<char>), k: int)
    requires
        0 <= k <= m.len(),
        forall|i: int| 0 <= i < k ==> !spells((#[trigger] m[i]).0, side),
    ensures
        yielded_at(m, side) == yielded_at(m.skip(k), side),
    decreases k,
{
    if k == 0 {
        assert(m.skip(0) =~= m);
    } else {
        assert(!spells(m[0].0, side));
        let rest = m.drop_first();
        assert forall|i: int| 0 <= i < k - 1 implies !spells((#[trigger] rest[i]).0, side) by {
            assert(rest[i] == m[i + 1]);
        }
        lemma_yielded_skip(rest, side, k - 1);
        assert(rest.skip(k - 1) =~= m.skip(k));
    }
}

fn find_yield(m: &Vec<(MarketSide, u64)>, market: &str, side: &str) -> (r: Option<u64>)
    ensures
        r == yielded_at(m@, (market@, side@)),
{
    let mut i: usize = 0;
    while i < m.len()
        invariant
            i <= m.len(),
            forall|j: int| 0 <= j < i ==> !spells((#[trigger] m@[j]).0, (market@, side@)),
        decreases m.len() - i,
    {
        if same(m[i].0.0.as_str(), market) && same(m[i].0.1.as_str(), side) {
            proof {
                lemma_yielded_skip(m@, (market@, side@), i as int);
                assert(m@.skip(i as int)[0] == m@[i as int]);
            }
            return Some(m[i].1);
        }
        i = i + 1;
    }
    proof {
        lemma_yielded_skip(m@, (market@, side@), i as int);
    }
    None
}

// ----------------------------------------------------------- the two shapes

/// What one shape offers: where it rests, for how many contracts, and what each
/// of them locks, in millionths of a dollar.
pub struct Offer {
    pub limit: Px,
    pub lock: (int, int),
    pub qty: i64,
}

/// An offer that was computed.
struct Offered {
    limit: Px,
    lock: Ratio,
    qty: i64,
}

impl Offered {
    spec fn wf(self) -> bool {
        &&& self.lock.wf()
        &&& far_ok(self.limit)
        &&& qty_ok(self.qty)
    }

    spec fn offer(self) -> Offer {
        Offer { limit: self.limit, lock: self.lock.at(), qty: self.qty }
    }
}

spec fn offered(r: Result<Offered, ShapeRefusal>) -> Result<Offer, ShapeRefusal> {
    match r {
        Ok(o) => Ok(o.offer()),
        Err(e) => Err(e),
    }
}

/// What resting a Kalshi ask and crossing the PM-US ask a tick through offers.
pub open spec fn offer_rest_kalshi(
    fees: FeeSchedule,
    ladder: Seq<Rung>,
    k_basis: (int, int),
    pm_basis: (int, int),
    pm_ask: (int, int),
    qty: i64,
    bid: Option<(int, int)>,
    ask: Option<(int, int)>,
) -> Result<Offer, ShapeRefusal> {
    let pm_close = total(pm_ask, dollars(CENT as int));
    match least_ask(
        fees,
        ladder,
        k_basis,
        pm_basis,
        pm_close,
        qty,
        Role::Maker,
        Role::Taker,
        EXIT_FLOOR,
    ) {
        Err(e) => Err(ShapeRefusal::Price(e)),
        Ok(floor) => match resting_ask(ladder, floor, bid, ask) {
            Err(e) => Err(ShapeRefusal::Price(e)),
            Ok(p) => {
                let limit = wire(p) as i64;
                Ok(
                    Offer {
                        limit,
                        lock: locked_ct(
                            fees,
                            (Role::Maker, Role::Taker),
                            dollars(limit as int),
                            pm_close,
                            k_basis,
                            pm_basis,
                            qty,
                        ),
                        qty,
                    },
                )
            },
        },
    }
}

/// What resting a PM-US bid and selling a tick under the Kalshi bid offers.
pub open spec fn offer_rest_pmus(
    fees: FeeSchedule,
    k_basis: (int, int),
    pm_basis: (int, int),
    pm_ask: (int, int),
    pm_bid: Option<(int, int)>,
    qty: i64,
    bid: Option<(int, int)>,
) -> Result<Offer, ShapeRefusal> {
    match bid {
        None => Err(ShapeRefusal::NoKalshiBid),
        Some(k_bid) => {
            let k_take = less_by(k_bid, dollars(CENT as int));
            if k_take.0 <= 0 {
                Err(ShapeRefusal::BidIsNoPrice { bid: six(k_bid) })
            } else {
                match dearest_close(
                    fees,
                    k_take,
                    k_basis,
                    pm_basis,
                    qty,
                    Role::Taker,
                    Role::Maker,
                    EXIT_FLOOR,
                ) {
                    Err(e) => Err(ShapeRefusal::Price(e)),
                    Ok(ceiling) => match resting_bid(ceiling, pm_bid, Some(pm_ask)) {
                        Err(e) => Err(ShapeRefusal::Price(e)),
                        Ok(p) => {
                            let limit = wire(p) as i64;
                            Ok(
                                Offer {
                                    limit,
                                    lock: locked_ct(
                                        fees,
                                        (Role::Taker, Role::Maker),
                                        k_take,
                                        dollars(limit as int),
                                        k_basis,
                                        pm_basis,
                                        qty,
                                    ),
                                    qty,
                                },
                            )
                        },
                    },
                }
            }
        },
    }
}

/// An offer that locks the floor; one that does not is no contender.
pub open spec fn graded(offer: Result<Offer, ShapeRefusal>) -> Result<Offer, ShapeRefusal> {
    match offer {
        Ok(o) if reaches(o.lock, EXIT_FLOOR) => Ok(o),
        Ok(o) => Err(ShapeRefusal::UnderFloor { limit: o.limit, lock: shown(o.lock) as i64 }),
        Err(e) => Err(e),
    }
}

fn grade(offer: Result<Offered, ShapeRefusal>) -> (r: Result<Offered, ShapeRefusal>)
    requires
        offer matches Ok(o) ==> o.wf(),
    ensures
        offered(r) == graded(offered(offer)),
        r matches Ok(o) ==> o.wf(),
{
    match offer {
        Ok(o) => if at_least(&o.lock, EXIT_FLOOR) {
            Ok(o)
        } else {
            Err(ShapeRefusal::UnderFloor { limit: o.limit, lock: o.lock.shown() })
        },
        Err(e) => Err(e),
    }
}

fn price_rest_kalshi(
    fees: &FeeSchedule,
    ladder: &Vec<Rung>,
    k_basis: &Ratio,
    pm_basis: &Ratio,
    pm_ask: &Ratio,
    qty: i64,
    bid: Option<&Ratio>,
    ask: Option<&Ratio>,
) -> (r: Result<Offered, ShapeRefusal>)
    requires
        fees.wf(),
        ladder_ok(ladder@),
        k_basis.wf(),
        pm_basis.wf(),
        pm_ask.wf(),
        qty_ok(qty),
        bid matches Some(b) ==> b.wf(),
        ask matches Some(a) ==> a.wf(),
    ensures
        offered(r) == offer_rest_kalshi(
            *fees,
            ladder@,
            k_basis.at(),
            pm_basis.at(),
            pm_ask.at(),
            qty,
            held(bid),
            held(ask),
        ),
        r matches Ok(o) ==> o.wf(),
{
    let pm_close: Ratio = pm_ask.total(&Ratio::dollars(CENT));
    let floor: Px = match exit_limit(
        fees,
        ladder,
        k_basis,
        pm_basis,
        &pm_close,
        qty,
        Role::Maker,
        Role::Taker,
        EXIT_FLOOR,
    ) {
        Ok(f) => f,
        Err(e) => {
            return Err(ShapeRefusal::Price(e));
        },
    };
    match rest_price(ladder, floor, bid, ask) {
        Err(e) => Err(ShapeRefusal::Price(e)),
        Ok(p) => {
            let limit: Px = to_wire(p);
            let lock: Ratio = lock_per_ct(
                fees,
                (Role::Maker, Role::Taker),
                &Ratio::dollars(limit),
                &pm_close,
                k_basis,
                pm_basis,
                qty,
            );
            Ok(Offered { limit, lock, qty })
        },
    }
}

fn price_rest_pmus(
    fees: &FeeSchedule,
    k_basis: &Ratio,
    pm_basis: &Ratio,
    pm_ask: &Ratio,
    pm_bid: Option<&Ratio>,
    qty: i64,
    bid: Option<&Ratio>,
) -> (r: Result<Offered, ShapeRefusal>)
    requires
        fees.wf(),
        k_basis.wf(),
        pm_basis.wf(),
        pm_ask.wf(),
        pm_bid matches Some(b) ==> b.wf(),
        qty_ok(qty),
        bid matches Some(b) ==> b.wf(),
    ensures
        offered(r) == offer_rest_pmus(
            *fees,
            k_basis.at(),
            pm_basis.at(),
            pm_ask.at(),
            held(pm_bid),
            qty,
            held(bid),
        ),
        r matches Ok(o) ==> o.wf(),
{
    let k_bid: &Ratio = match bid {
        None => {
            return Err(ShapeRefusal::NoKalshiBid);
        },
        Some(b) => b,
    };
    let k_take: Ratio = k_bid.less_by(&Ratio::dollars(CENT));
    if !k_take.above(0) {
        return Err(ShapeRefusal::BidIsNoPrice { bid: six_of(k_bid) });
    }
    let ceiling: Px = match close_limit(
        fees,
        &k_take,
        k_basis,
        pm_basis,
        qty,
        Role::Taker,
        Role::Maker,
        EXIT_FLOOR,
    ) {
        Ok(c) => c,
        Err(e) => {
            return Err(ShapeRefusal::Price(e));
        },
    };
    match rest_price_bid(ceiling, pm_bid, Some(pm_ask)) {
        Err(e) => Err(ShapeRefusal::Price(e)),
        Ok(p) => {
            let limit: Px = to_wire(p);
            let lock: Ratio = lock_per_ct(
                fees,
                (Role::Taker, Role::Maker),
                &k_take,
                &Ratio::dollars(limit),
                k_basis,
                pm_basis,
                qty,
            );
            Ok(Offered { limit, lock, qty })
        },
    }
}

// ------------------------------------------------------------- the decision

/// What was decided, before it is written down.
pub struct Plan {
    pub shape: Shape,
    pub qty: i64,
    pub offer: Offer,
    /// What the other shape would have locked, where it was a contender.
    pub runner_up: Option<(int, int)>,
    pub cross: Option<Offer>,
}

/// A decision that was computed.
struct Planned {
    shape: Shape,
    qty: i64,
    offer: Offered,
    runner_up: Option<Ratio>,
    cross: Option<Offered>,
}

impl Planned {
    spec fn wf(self) -> bool {
        &&& self.offer.wf()
        &&& self.runner_up matches Some(l) ==> l.wf()
        &&& self.cross matches Some(c) ==> c.wf()
    }

    spec fn plan(self) -> Plan {
        Plan {
            shape: self.shape,
            qty: self.qty,
            offer: self.offer.offer(),
            runner_up: match self.runner_up {
                Some(l) => Some(l.at()),
                None => None,
            },
            cross: match self.cross {
                Some(c) => Some(c.offer()),
                None => None,
            },
        }
    }
}

spec fn planned(r: Result<Planned, DecideRefusal>) -> Result<Plan, DecideRefusal> {
    match r {
        Ok(p) => Ok(p.plan()),
        Err(e) => Err(e),
    }
}

/// The better of the two graded offers, by what a contract locks. A tie goes to
/// resting on Kalshi.
pub open spec fn contest(a: Result<Offer, ShapeRefusal>, b: Result<Offer, ShapeRefusal>) -> Result<
    (Shape, Offer, Option<(int, int)>),
    DecideRefusal,
> {
    match (a, b) {
        (Err(ea), Err(eb)) => Err(DecideRefusal::NeitherPays { a: ea, b: eb }),
        (Ok(x), Err(_)) => Ok((Shape::RestKalshi, x, None)),
        (Err(_), Ok(y)) => Ok((Shape::RestPmUs, y, None)),
        (Ok(x), Ok(y)) => if below(x.lock, y.lock) {
            Ok((Shape::RestPmUs, y, Some(x.lock)))
        } else {
            Ok((Shape::RestKalshi, x, Some(y.lock)))
        },
    }
}

/// The offer that crossing both legs makes, where it may be made: the side
/// that it lifts has been yielded for the settle time, there is a Kalshi bid to
/// sell into, and both takers' fees leave the floor.
pub open spec fn crossing(
    fees: FeeSchedule,
    shape: Shape,
    k_basis: (int, int),
    pm_basis: (int, int),
    pm_ask: (int, int),
    qty: i64,
    bid: Option<(int, int)>,
    lift: Option<u64>,
    now: u64,
) -> Option<Offer> {
    match (lift, bid) {
        (Some(since), Some(b)) => {
            let k_take = less_by(b, dollars(CENT as int));
            let pm_take = total(pm_ask, dollars(CENT as int));
            let lock = locked_ct(
                fees,
                (Role::Taker, Role::Taker),
                k_take,
                pm_take,
                k_basis,
                pm_basis,
                qty,
            );
            if elapsed(since, now) < SUPPRESS_SETTLE_NS || k_take.0 <= 0 || !reaches(
                lock,
                EXIT_FLOOR,
            ) {
                None
            } else {
                Some(
                    Offer {
                        limit: quantized(
                            match shape {
                                Shape::RestKalshi => k_take,
                                Shape::RestPmUs => pm_take,
                            },
                        ) as i64,
                        lock,
                        qty,
                    },
                )
            }
        },
        _ => None,
    }
}

pub open spec fn least(a: i64, b: i64) -> i64 {
    if a <= b {
        a
    } else {
        b
    }
}

/// The quantity of an exit: what both legs hold, what the marks say, and no
/// more than a clip.
pub open spec fn clip(k: i64, pm: i64, marks: i64) -> i64 {
    least(least(least(k, pm), marks), MAX_CLIP)
}

/// The ladder that the close of a shape trades against.
pub open spec fn close_ladder(shape: Shape, market: Seq<char>, pm_market: Seq<char>) -> Seq<char> {
    depth_key(
        Direction::Standard,
        shape,
        match shape {
            Shape::RestKalshi => pm_market,
            Shape::RestPmUs => market,
        },
    )
}

/// The quantity that a shape is sized to: no more than what is left of the
/// ladder that its close trades against.
pub open spec fn sized(
    qty: i64,
    view: EngineView,
    claims: Seq<(String, i64)>,
    shape: Shape,
    market: Seq<char>,
    pm_market: Seq<char>,
) -> i64 {
    fitted(qty, left(view, claims, close_ladder(shape, market, pm_market)))
}

/// The decision on a candidate whose legs cost `k_basis` and `pm_basis` and
/// whose PM-US market asks `pm_ask`, each a fraction of a dollar. Each shape is
/// priced at the quantity that it is sized to.
pub open spec fn priced(
    fees: FeeSchedule,
    k_basis: (int, int),
    pm_basis: (int, int),
    pm_ask: (int, int),
    qty: i64,
    cand: Exit,
    pm_market: Seq<char>,
    quote: Quote,
    view: EngineView,
    claims: Seq<(String, i64)>,
    now: u64,
    take_ok: bool,
) -> Result<Plan, DecideRefusal> {
    let bid = price_in(quote.yes_bid);
    let qa = sized(qty, view, claims, Shape::RestKalshi, cand.market_id@, pm_market);
    let qb = sized(qty, view, claims, Shape::RestPmUs, cand.market_id@, pm_market);
    let a = if qa < 1 {
        Err(ShapeRefusal::NoDepth)
    } else {
        graded(
            offer_rest_kalshi(
                fees,
                legal(quote.ladder@),
                k_basis,
                pm_basis,
                pm_ask,
                qa,
                bid,
                price_in(quote.yes_ask),
            ),
        )
    };
    let b = if qb < 1 {
        Err(ShapeRefusal::NoDepth)
    } else {
        graded(
            offer_rest_pmus(
                fees,
                k_basis,
                pm_basis,
                pm_ask,
                price_in(lookup(view.pm_bid@, pm_market)),
                qb,
                bid,
            ),
        )
    };
    match contest(a, b) {
        Err(e) => Err(e),
        Ok((shape, offer, runner_up)) => {
            match yielded_at(
                view.suppressed_at@,
                rest_side(shape, cand.market_id@, pm_market),
            ) {
                None => Err(DecideRefusal::NotYielded { shape }),
                Some(since) => if elapsed(since, now) < SUPPRESS_SETTLE_NS {
                    Err(DecideRefusal::Settling { shape, age_ns: elapsed(since, now) as u64 })
                } else {
                    let cross = if take_ok {
                        crossing(
                            fees,
                            shape,
                            k_basis,
                            pm_basis,
                            pm_ask,
                            offer.qty,
                            bid,
                            yielded_at(
                                view.suppressed_at@,
                                lift_side(shape, cand.market_id@, pm_market),
                            ),
                            now,
                        )
                    } else {
                        None
                    };
                    Ok(Plan { shape, qty: offer.qty, offer, runner_up, cross })
                },
            }
        },
    }
}

/// The price that a text spells, where there is a text and it spells one.
pub open spec fn price_in(s: Option<String>) -> Option<(int, int)> {
    match s {
        Some(t) => fraction_of(t@),
        None => None,
    }
}

/// The whole decision, in the order in which its guards are asked.
pub open spec fn decision(
    fees: FeeSchedule,
    k_lot: Result<Lot, String>,
    pm_lot: Result<Lot, String>,
    inflight_clear: bool,
    cand: Exit,
    pm_market: Seq<char>,
    quote: Quote,
    view: EngineView,
    claims: Seq<(String, i64)>,
    now: u64,
    take_ok: bool,
) -> Result<Plan, DecideRefusal> {
    if !cand.actionable {
        Err(DecideRefusal::OutOfScope)
    } else if quote.status@ != "active"@ {
        Err(DecideRefusal::NotActive)
    } else if !inflight_clear {
        Err(DecideRefusal::Inflight)
    } else {
        match lookup(view.pm_ask@, pm_market) {
            None => Err(DecideRefusal::NoPmAsk),
            Some(text) => match (fraction_of(text@), k_lot, pm_lot) {
                (None, _, _) => Err(DecideRefusal::BadPmAsk),
                (_, Err(_), _) => Err(DecideRefusal::KalshiLot),
                (_, _, Err(_)) => Err(DecideRefusal::PmLot),
                (Some(pm_ask), Ok(k), Ok(pm)) => {
                    let qty = clip(k.qty, pm.qty, cand.qty);
                    if qty < 1 {
                        Err(
                            DecideRefusal::NothingToExit {
                                k: k.qty,
                                pm: pm.qty,
                                marks: cand.qty,
                            },
                        )
                    } else {
                        match (fraction_of(k.cost_per_ct@), fraction_of(pm.cost_per_ct@)) {
                            (None, _) => Err(DecideRefusal::BadKalshiBasis),
                            (_, None) => Err(DecideRefusal::BadPmBasis),
                            (Some(kb), Some(pb)) => priced(
                                fees,
                                kb,
                                pb,
                                pm_ask,
                                qty,
                                cand,
                                pm_market,
                                quote,
                                view,
                                claims,
                                now,
                                take_ok,
                            ),
                        }
                    }
                },
            },
        }
    }
}

fn read_price(s: Option<&String>) -> (r: Option<Ratio>)
    ensures
        known(r) == (match s {
            Some(t) => fraction_of(t@),
            None => None,
        }),
        r matches Some(x) ==> x.wf(),
{
    match s {
        Some(t) => Ratio::read(t.as_str()),
        None => None,
    }
}

fn plan_cross(
    fees: &FeeSchedule,
    shape: Shape,
    k_basis: &Ratio,
    pm_basis: &Ratio,
    pm_ask: &Ratio,
    qty: i64,
    bid: Option<&Ratio>,
    lift: Option<u64>,
    now: u64,
) -> (r: Option<Offered>)
    requires
        fees.wf(),
        k_basis.wf(),
        pm_basis.wf(),
        pm_ask.wf(),
        qty_ok(qty),
        bid matches Some(b) ==> b.wf(),
    ensures
        crossing(
            *fees,
            shape,
            k_basis.at(),
            pm_basis.at(),
            pm_ask.at(),
            qty,
            held(bid),
            lift,
            now,
        ) == (match r {
            Some(o) => Some(o.offer()),
            None => None,
        }),
        r matches Some(o) ==> o.wf(),
{
    match (lift, bid) {
        (Some(since), Some(b)) => {
            let k_take: Ratio = b.less_by(&Ratio::dollars(CENT));
            if elapsed_ns(since, now) < SUPPRESS_SETTLE_NS || !k_take.above(0) {
                return None;
            }
            let pm_take: Ratio = pm_ask.total(&Ratio::dollars(CENT));
            let lock: Ratio = lock_per_ct(
                fees,
                (Role::Taker, Role::Taker),
                &k_take,
                &pm_take,
                k_basis,
                pm_basis,
                qty,
            );
            if !at_least(&lock, EXIT_FLOOR) {
                return None;
            }
            let limit: Px = match shape {
                Shape::RestKalshi => quantize(&k_take),
                Shape::RestPmUs => quantize(&pm_take),
            };
            Some(Offered { limit, lock, qty })
        },
        _ => None,
    }
}

fn size_to(
    qty: i64,
    view: &EngineView,
    claims: &Vec<(String, i64)>,
    shape: Shape,
    market: &str,
    pm_market: &str,
) -> (r: i64)
    requires
        qty >= 1,
    ensures
        r == sized(qty, *view, claims@, shape, market@, pm_market@),
        0 <= r <= qty,
{
    let ladder: String = close_depth_key(Direction::Standard, shape, market, pm_market);
    fit(qty, view, claims, ladder.as_str())
}

fn plan_priced(
    fees: &FeeSchedule,
    k_basis: &Ratio,
    pm_basis: &Ratio,
    pm_ask: &Ratio,
    qty: i64,
    cand: &Exit,
    pm_market: &str,
    quote: &Quote,
    view: &EngineView,
    claims: &Vec<(String, i64)>,
    now: u64,
    take_ok: bool,
) -> (r: Result<Planned, DecideRefusal>)
    requires
        fees.wf(),
        k_basis.wf(),
        pm_basis.wf(),
        pm_ask.wf(),
        1 <= qty <= MAX_CLIP,
    ensures
        planned(r) == priced(
            *fees,
            k_basis.at(),
            pm_basis.at(),
            pm_ask.at(),
            qty,
            *cand,
            pm_market@,
            *quote,
            *view,
            claims@,
            now,
            take_ok,
        ),
        r matches Ok(p) ==> p.wf(),
{
    let bid: Option<Ratio> = read_price(quote.yes_bid.as_ref());
    let ask: Option<Ratio> = read_price(quote.yes_ask.as_ref());
    let pm_bid: Option<Ratio> = read_price(find(&view.pm_bid, pm_market));
    let qa: i64 = size_to(qty, view, claims, Shape::RestKalshi, cand.market_id.as_str(), pm_market);
    let qb: i64 = size_to(qty, view, claims, Shape::RestPmUs, cand.market_id.as_str(), pm_market);
    let a: Result<Offered, ShapeRefusal> = if qa < 1 {
        Err(ShapeRefusal::NoDepth)
    } else {
        grade(
            price_rest_kalshi(
                fees,
                &legal_ladder(&quote.ladder),
                k_basis,
                pm_basis,
                pm_ask,
                qa,
                bid.as_ref(),
                ask.as_ref(),
            ),
        )
    };
    let b: Result<Offered, ShapeRefusal> = if qb < 1 {
        Err(ShapeRefusal::NoDepth)
    } else {
        grade(price_rest_pmus(fees, k_basis, pm_basis, pm_ask, pm_bid.as_ref(), qb, bid.as_ref()))
    };
    let (shape, offer, runner_up): (Shape, Offered, Option<Ratio>) = match (a, b) {
        (Err(ea), Err(eb)) => {
            return Err(DecideRefusal::NeitherPays { a: ea, b: eb });
        },
        (Ok(x), Err(_)) => (Shape::RestKalshi, x, None),
        (Err(_), Ok(y)) => (Shape::RestPmUs, y, None),
        (Ok(x), Ok(y)) => if x.lock.below(&y.lock) {
            (Shape::RestPmUs, y, Some(x.lock))
        } else {
            (Shape::RestKalshi, x, Some(y.lock))
        },
    };
    let (market, rest, lift): (&str, &str, &str) = match shape {
        Shape::RestKalshi => (
            cand.market_id.as_str(),
            Side::Ask.as_str(),
            Side::Bid.as_str(),
        ),
        Shape::RestPmUs => (pm_market, Side::Bid.as_str(), Side::Ask.as_str()),
    };
    match find_yield(&view.suppressed_at, market, rest) {
        None => {
            return Err(DecideRefusal::NotYielded { shape });
        },
        Some(since) => {
            let age: u64 = elapsed_ns(since, now);
            if age < SUPPRESS_SETTLE_NS {
                return Err(DecideRefusal::Settling { shape, age_ns: age });
            }
        },
    }
    let cross: Option<Offered> = if take_ok {
        let since: Option<u64> = find_yield(&view.suppressed_at, market, lift);
        plan_cross(fees, shape, k_basis, pm_basis, pm_ask, offer.qty, bid.as_ref(), since, now)
    } else {
        None
    };
    Ok(Planned { shape, qty: offer.qty, offer, runner_up, cross })
}

/// Whether an order writes a plan down.
pub open spec fn writes(
    o: Order,
    p: Plan,
    k_lot: Lot,
    pm_lot: Lot,
    cand: Exit,
    pm_market: Seq<char>,
    quote: Quote,
    view: EngineView,
) -> bool {
    &&& o.rel_id@ == cand.rel_id@
    &&& o.shape == p.shape
    &&& o.direction == Direction::Standard
    &&& o.market@ == cand.market_id@
    &&& o.pm_market@ == pm_market
    &&& o.qty == p.qty
    &&& o.limit@ == four_decimals(nearest(p.offer.limit as int, 100))
    &&& o.closes_ts == k_lot.open_ts
    &&& o.k_basis@ == k_lot.cost_per_ct@
    &&& o.pm_basis@ == pm_lot.cost_per_ct@
    &&& o.pm_ask_at_decision@ == (match p.shape {
        Shape::RestKalshi => lookup(view.pm_ask@, pm_market)->0@,
        Shape::RestPmUs => match quote.yes_bid {
            Some(b) => b@,
            None => Seq::empty(),
        },
    })
    &&& o.lock_ct@ == six_decimals(shown(p.offer.lock))
    &&& (match p.cross {
        None => o.cross is None,
        Some(c) => {
            &&& o.cross is Some
            &&& o.cross->0.limit@ == four_decimals(nearest(c.limit as int, 100))
            &&& o.cross->0.lock_ct@ == six_decimals(shown(c.lock))
        },
    })
    &&& (match p.runner_up {
        None => o.runner_up_ct is None,
        Some(l) => o.runner_up_ct is Some && o.runner_up_ct->0@ == six_decimals(shown(l)),
    })
}

/// The plan for one candidate, or why there is none.
fn plan(
    fees: &FeeSchedule,
    k_lot: &Result<Lot, String>,
    pm_lot: &Result<Lot, String>,
    inflight_clear: bool,
    cand: &Exit,
    pm_market: &str,
    quote: &Quote,
    view: &EngineView,
    claims: &Vec<(String, i64)>,
    now: u64,
    take_ok: bool,
) -> (r: Result<Planned, DecideRefusal>)
    requires
        fees.wf(),
    ensures
        planned(r) == decision(
            *fees,
            *k_lot,
            *pm_lot,
            inflight_clear,
            *cand,
            pm_market@,
            *quote,
            *view,
            claims@,
            now,
            take_ok,
        ),
        r matches Ok(p) ==> p.wf() && k_lot is Ok && pm_lot is Ok && lookup(
            view.pm_ask@,
            pm_market@,
        ) is Some,
{
    if !cand.actionable {
        return Err(DecideRefusal::OutOfScope);
    }
    if !same(quote.status.as_str(), "active") {
        return Err(DecideRefusal::NotActive);
    }
    if !inflight_clear {
        return Err(DecideRefusal::Inflight);
    }
    let pm_ask: Ratio = match find(&view.pm_ask, pm_market) {
        None => {
            return Err(DecideRefusal::NoPmAsk);
        },
        Some(t) => match Ratio::read(t.as_str()) {
            Some(x) => x,
            None => {
                return Err(DecideRefusal::BadPmAsk);
            },
        },
    };
    let k: &Lot = match k_lot {
        Err(_) => {
            return Err(DecideRefusal::KalshiLot);
        },
        Ok(l) => l,
    };
    let pm: &Lot = match pm_lot {
        Err(_) => {
            return Err(DecideRefusal::PmLot);
        },
        Ok(l) => l,
    };
    let both: i64 = if k.qty <= pm.qty {
        k.qty
    } else {
        pm.qty
    };
    let held: i64 = if both <= cand.qty {
        both
    } else {
        cand.qty
    };
    let qty: i64 = if held <= MAX_CLIP {
        held
    } else {
        MAX_CLIP
    };
    if qty < 1 {
        return Err(DecideRefusal::NothingToExit { k: k.qty, pm: pm.qty, marks: cand.qty });
    }
    let k_basis: Ratio = match Ratio::read(k.cost_per_ct.as_str()) {
        None => {
            return Err(DecideRefusal::BadKalshiBasis);
        },
        Some(p) => p,
    };
    let pm_basis: Ratio = match Ratio::read(pm.cost_per_ct.as_str()) {
        None => {
            return Err(DecideRefusal::BadPmBasis);
        },
        Some(p) => p,
    };
    plan_priced(
        fees,
        &k_basis,
        &pm_basis,
        &pm_ask,
        qty,
        cand,
        pm_market,
        quote,
        view,
        claims,
        now,
        take_ok,
    )
}

/// Writes a plan down as an order.
fn write_down(
    p: &Planned,
    k: &Lot,
    pm: &Lot,
    cand: &Exit,
    pm_market: &str,
    quote: &Quote,
    view: &EngineView,
) -> (r: Order)
    requires
        p.wf(),
        lookup(view.pm_ask@, pm_market@) is Some,
    ensures
        writes(r, p.plan(), *k, *pm, *cand, pm_market@, *quote, *view),
{
    let against: String = match p.shape {
        Shape::RestKalshi => match find(&view.pm_ask, pm_market) {
            Some(t) => t.clone(),
            None => String::new(),
        },
        Shape::RestPmUs => match &quote.yes_bid {
            Some(b) => b.clone(),
            None => String::new(),
        },
    };
    let cross: Option<Cross> = match &p.cross {
        None => None,
        Some(c) => Some(Cross { limit: px4(c.limit), lock_ct: px6(c.lock.shown()) }),
    };
    let runner_up_ct: Option<String> = match &p.runner_up {
        None => None,
        Some(l) => Some(px6(l.shown())),
    };
    Order {
        rel_id: cand.rel_id.clone(),
        shape: p.shape,
        direction: Direction::Standard,
        market: cand.market_id.clone(),
        pm_market: pm_market.to_owned(),
        qty: p.qty,
        limit: px4(p.offer.limit),
        closes_ts: k.open_ts,
        k_basis: k.cost_per_ct.clone(),
        pm_basis: pm.cost_per_ct.clone(),
        pm_ask_at_decision: against,
        lock_ct: px6(p.offer.lock.shown()),
        cross,
        runner_up_ct,
    }
}

/// Decides the exit of one candidate. `k_lot` and `pm_lot` are the two legs of
/// the lot that the selector chose, as the ledger has them, and `inflight` is
/// whether the engine owes no hedge on the market; `claims` is what other exits
/// claim of the closing ladders.
pub fn decide(
    gauges: &mut Gauges,
    fees: &FeeSchedule,
    k_lot: &Result<Lot, String>,
    pm_lot: &Result<Lot, String>,
    inflight: &Result<(), String>,
    cand: &Exit,
    pm_market: &str,
    quote: &Quote,
    view: &EngineView,
    claims: &Vec<(String, i64)>,
    now: u64,
    take_ok: bool,
) -> (r: Result<Order, DecideRefusal>)
    requires
        fees.wf(),
    ensures
        match decision(
            *fees,
            *k_lot,
            *pm_lot,
            inflight is Ok,
            *cand,
            pm_market@,
            *quote,
            *view,
            claims@,
            now,
            take_ok,
        ) {
            Ok(p) => {
                &&& r is Ok
                &&& writes(
                    r->Ok_0,
                    p,
                    k_lot->Ok_0,
                    pm_lot->Ok_0,
                    *cand,
                    pm_market@,
                    *quote,
                    *view,
                )
                &&& *final(gauges) == *old(gauges)
            },
            Err(e) => r == Err::<Order, DecideRefusal>(e) && *final(gauges) == old(
                gauges,
            ).plus_refused(),
        },
{
    let p: Planned = match plan(
        fees,
        k_lot,
        pm_lot,
        inflight.is_ok(),
        cand,
        pm_market,
        quote,
        view,
        claims,
        now,
        take_ok,
    ) {
        Err(e) => {
            return Err(refuse(gauges, e));
        },
        Ok(p) => p,
    };
    match (k_lot, pm_lot) {
        (Ok(k), Ok(pm)) => Ok(write_down(&p, k, pm, cand, pm_market, quote, view)),
        _ => Err(refuse(gauges, DecideRefusal::KalshiLot)),
    }
}

// --------------------------------------------------------------------- laws

/// An exit that is decided trades at least one contract and never more than a
/// clip, nor more than either leg of its lot holds, nor more than what is left of
/// the ladder that its close trades against.
pub proof fn law_an_exit_is_clipped(
    fees: FeeSchedule,
    k_lot: Lot,
    pm_lot: Lot,
    cand: Exit,
    pm_market: Seq<char>,
    quote: Quote,
    view: EngineView,
    claims: Seq<(String, i64)>,
    now: u64,
    take_ok: bool,
    p: Plan,
)
    requires
        decision(
            fees,
            Ok(k_lot),
            Ok(pm_lot),
            true,
            cand,
            pm_market,
            quote,
            view,
            claims,
            now,
            take_ok,
        ) == Ok::<Plan, DecideRefusal>(p),
    ensures
        1 <= p.qty <= MAX_CLIP,
        p.qty <= k_lot.qty,
        p.qty <= pm_lot.qty,
        p.qty <= cand.qty,
        left(view, claims, close_ladder(p.shape, cand.market_id@, pm_market)) matches Some(n)
            ==> p.qty <= n,
{
}

/// The shape that is chosen locks the selection floor, and locks no less than
/// the other one. A cross is planned only with the flag, and it too locks the
/// floor.
pub proof fn law_the_chosen_shape_is_never_the_worse_one(
    fees: FeeSchedule,
    k_lot: Result<Lot, String>,
    pm_lot: Result<Lot, String>,
    cand: Exit,
    pm_market: Seq<char>,
    quote: Quote,
    view: EngineView,
    claims: Seq<(String, i64)>,
    now: u64,
    take_ok: bool,
    p: Plan,
)
    requires
        decision(
            fees,
            k_lot,
            pm_lot,
            true,
            cand,
            pm_market,
            quote,
            view,
            claims,
            now,
            take_ok,
        ) == Ok::<Plan, DecideRefusal>(p),
    ensures
        reaches(p.offer.lock, EXIT_FLOOR),
        p.runner_up matches Some(l) ==> !below(p.offer.lock, l),
        p.runner_up matches Some(l) ==> p.shape == Shape::RestPmUs ==> below(l, p.offer.lock),
        p.cross is Some ==> take_ok,
        p.cross matches Some(c) ==> reaches(c.lock, EXIT_FLOOR),
{
}

/// Nothing rests on a side that the entry quoter has not yielded for the
/// settle time, and nothing crosses a side that it has not.
pub proof fn law_nothing_meets_our_own_quote(
    fees: FeeSchedule,
    k_lot: Result<Lot, String>,
    pm_lot: Result<Lot, String>,
    cand: Exit,
    pm_market: Seq<char>,
    quote: Quote,
    view: EngineView,
    claims: Seq<(String, i64)>,
    now: u64,
    take_ok: bool,
    p: Plan,
)
    requires
        decision(
            fees,
            k_lot,
            pm_lot,
            true,
            cand,
            pm_market,
            quote,
            view,
            claims,
            now,
            take_ok,
        ) == Ok::<Plan, DecideRefusal>(p),
    ensures
        yielded_at(view.suppressed_at@, rest_side(p.shape, cand.market_id@, pm_market)) matches Some(
            since,
        ) && elapsed(since, now) >= SUPPRESS_SETTLE_NS,
        p.cross is Some ==> (yielded_at(
            view.suppressed_at@,
            lift_side(p.shape, cand.market_id@, pm_market),
        ) matches Some(since) && elapsed(since, now) >= SUPPRESS_SETTLE_NS),
{
}

} // verus!
