//! One exit, priced and ready to rest or to cross.
use crate::board::MarketSide;
use crate::venue::{Direction, Role, Shape, Side, Venue};
use vstd::prelude::*;

verus! {

/// Crossing both legs at once in place of resting one and waiting.
#[derive(Debug)]
pub struct Cross {
    /// The marketable limit of the leg that would otherwise have rested.
    pub limit: String,
    /// What crossing both legs locks per contract, net of both takers' fees.
    pub lock_ct: String,
}

impl Clone for Cross {
    fn clone(&self) -> (r: Self)
        ensures
            r == *self,
    {
        Cross { limit: self.limit.clone(), lock_ct: self.lock_ct.clone() }
    }
}

/// One exit. Prices stand as text, the way the wire and the ledger take them.
#[derive(Debug)]
pub struct Order {
    pub rel_id: String,
    /// Which leg rests.
    pub shape: Shape,
    /// Which way round the basket is held.
    pub direction: Direction,
    /// The Kalshi ticker.
    pub market: String,
    /// The PM-US market.
    pub pm_market: String,
    pub qty: i64,
    /// The price to rest at, with four decimals.
    pub limit: String,
    /// The timestamp of the one open record that this closes, as the bits of
    /// its seconds.
    pub closes_ts: u64,
    pub k_basis: String,
    pub pm_basis: String,
    /// The other leg's touch that the exit was priced against.
    pub pm_ask_at_decision: String,
    /// What one contract locks at the price that it rests at.
    pub lock_ct: String,
    /// Set where the exit crosses in place of resting.
    pub cross: Option<Cross>,
    /// What the other shape would have locked, where it could be priced.
    pub runner_up_ct: Option<String>,
}

fn copy_cross(c: &Option<Cross>) -> (r: Option<Cross>)
    ensures
        r == *c,
{
    match c {
        Some(x) => Some(x.clone()),
        None => None,
    }
}

/// A copy of an optional text.
pub fn copy_text(t: &Option<String>) -> (r: Option<String>)
    ensures
        r == *t,
{
    match t {
        Some(x) => Some(x.clone()),
        None => None,
    }
}

impl Clone for Order {
    fn clone(&self) -> (r: Self)
        ensures
            r == *self,
    {
        Order {
            rel_id: self.rel_id.clone(),
            shape: self.shape,
            direction: self.direction,
            market: self.market.clone(),
            pm_market: self.pm_market.clone(),
            qty: self.qty,
            limit: self.limit.clone(),
            closes_ts: self.closes_ts,
            k_basis: self.k_basis.clone(),
            pm_basis: self.pm_basis.clone(),
            pm_ask_at_decision: self.pm_ask_at_decision.clone(),
            lock_ct: self.lock_ct.clone(),
            cross: copy_cross(&self.cross),
            runner_up_ct: copy_text(&self.runner_up_ct),
        }
    }
}

impl Order {
    /// The market of the leg at a venue.
    pub open spec fn market_at(self, venue: Venue) -> String {
        match venue {
            Venue::Kalshi => self.market,
            Venue::PolymarketUs => self.pm_market,
        }
    }

    pub open spec fn rests_on(self) -> String {
        self.market_at(self.shape.rests_at())
    }

    pub open spec fn closes_on(self) -> String {
        self.market_at(self.shape.closes_at())
    }

    /// The market on which the post-only order rests.
    pub fn rest_market(&self) -> (r: &str)
        ensures
            r@ == self.rests_on()@,
    {
        match self.shape {
            Shape::RestKalshi => self.market.as_str(),
            Shape::RestPmUs => self.pm_market.as_str(),
        }
    }

    /// The market on which the closing order crosses.
    pub fn close_market(&self) -> (r: &str)
        ensures
            r@ == self.closes_on()@,
    {
        match self.shape {
            Shape::RestKalshi => self.pm_market.as_str(),
            Shape::RestPmUs => self.market.as_str(),
        }
    }

    /// The price at which the first leg is sent.
    pub open spec fn sent_at(self) -> String {
        match self.cross {
            Some(c) => c.limit,
            None => self.limit,
        }
    }

    /// The price at which the first leg was sent: the limit, or on a cross the
    /// limit of the cross.
    pub fn rest_limit(&self) -> (r: &str)
        ensures
            r@ == self.sent_at()@,
    {
        match &self.cross {
            Some(c) => c.limit.as_str(),
            None => self.limit.as_str(),
        }
    }

    /// The lock that was taken: that of the cross where it crossed.
    pub open spec fn lock_taken(self) -> String {
        match self.cross {
            Some(c) => c.lock_ct,
            None => self.lock_ct,
        }
    }

    /// The fee roles that the legs pay, Kalshi first: both takers on a cross.
    pub open spec fn roles_paid(self) -> (Role, Role) {
        if self.cross is Some {
            (Role::Taker, Role::Taker)
        } else {
            self.shape.leg_roles()
        }
    }
}

// ---------------------------------------------------------- the sides it holds

/// The side that a shape rests, of a Kalshi ticker and a PM-US market.
pub open spec fn rest_side(shape: Shape, market: Seq<char>, pm: Seq<char>) -> (
    Seq<char>,
    Seq<char>,
) {
    match shape {
        Shape::RestKalshi => (market, Side::Ask.name()),
        Shape::RestPmUs => (pm, Side::Bid.name()),
    }
}

/// The side that a cross of a shape lifts first.
pub open spec fn lift_side(shape: Shape, market: Seq<char>, pm: Seq<char>) -> (
    Seq<char>,
    Seq<char>,
) {
    match shape {
        Shape::RestKalshi => (market, Side::Bid.name()),
        Shape::RestPmUs => (pm, Side::Ask.name()),
    }
}

/// What a market and a side spell.
pub open spec fn spells(k: MarketSide, side: (Seq<char>, Seq<char>)) -> bool {
    k.0@ == side.0 && k.1@ == side.1
}

/// The market and side that a resting order occupies.
pub fn rest_key(o: &Order) -> (r: MarketSide)
    ensures
        spells(r, rest_side(o.shape, o.market@, o.pm_market@)),
{
    match o.shape {
        Shape::RestKalshi => (o.market.clone(), Side::Ask.as_str().to_owned()),
        Shape::RestPmUs => (o.pm_market.clone(), Side::Bid.as_str().to_owned()),
    }
}

/// The sides that a cross lifts: the Kalshi bid and the PM-US ask.
pub fn cross_keys(market_id: &str, pm_market: &str) -> (r: Vec<MarketSide>)
    ensures
        r@.len() == 2,
        spells(r@[0], lift_side(Shape::RestKalshi, market_id@, pm_market@)),
        spells(r@[1], lift_side(Shape::RestPmUs, market_id@, pm_market@)),
{
    let mut v: Vec<MarketSide> = Vec::new();
    v.push((market_id.to_owned(), Side::Bid.as_str().to_owned()));
    v.push((pm_market.to_owned(), Side::Ask.as_str().to_owned()));
    v
}

/// Both sides that a candidate might rest: the Kalshi ask and the PM-US bid.
pub fn candidate_keys(market_id: &str, pm_market: &str) -> (r: Vec<MarketSide>)
    ensures
        r@.len() == 2,
        spells(r@[0], rest_side(Shape::RestKalshi, market_id@, pm_market@)),
        spells(r@[1], rest_side(Shape::RestPmUs, market_id@, pm_market@)),
{
    let mut v: Vec<MarketSide> = Vec::new();
    v.push((market_id.to_owned(), Side::Ask.as_str().to_owned()));
    v.push((pm_market.to_owned(), Side::Bid.as_str().to_owned()));
    v
}

/// The side of a venue's book that leaving a basket rests on: the ask where it
/// sells, the bid where it buys.
pub open spec fn own_side(direction: Direction, venue: Venue) -> Side {
    if direction.sells_at(venue) {
        Side::Ask
    } else {
        Side::Bid
    }
}

/// The side of a venue's book that leaving a basket lifts.
pub open spec fn far_side(direction: Direction, venue: Venue) -> Side {
    if direction.sells_at(venue) {
        Side::Bid
    } else {
        Side::Ask
    }
}

/// Both sides that an exit of a basket held either way round might rest.
pub fn candidate_keys_for(market_id: &str, pm_market: &str, direction: Direction) -> (r: Vec<
    MarketSide,
>)
    ensures
        r@.len() == 2,
        spells(r@[0], (market_id@, own_side(direction, Venue::Kalshi).name())),
        spells(r@[1], (pm_market@, own_side(direction, Venue::PolymarketUs).name())),
{
    match direction {
        Direction::Standard => candidate_keys(market_id, pm_market),
        Direction::Inverse => cross_keys(market_id, pm_market),
    }
}

/// The sides that a cross of a basket held either way round lifts.
pub fn cross_keys_for(market_id: &str, pm_market: &str, direction: Direction) -> (r: Vec<
    MarketSide,
>)
    ensures
        r@.len() == 2,
        spells(r@[0], (market_id@, far_side(direction, Venue::Kalshi).name())),
        spells(r@[1], (pm_market@, far_side(direction, Venue::PolymarketUs).name())),
{
    match direction {
        Direction::Standard => cross_keys(market_id, pm_market),
        Direction::Inverse => candidate_keys(market_id, pm_market),
    }
}

/// The two handles of the venues, that of the resting leg first.
pub fn sinks<T>(shape: Shape, kalshi: T, pmus: T) -> (r: (T, T))
    ensures
        r == (match shape {
            Shape::RestKalshi => (kalshi, pmus),
            Shape::RestPmUs => (pmus, kalshi),
        }),
{
    match shape {
        Shape::RestKalshi => (kalshi, pmus),
        Shape::RestPmUs => (pmus, kalshi),
    }
}

/// Two fills held by role, mapped onto the venues: Kalshi first.
pub open spec fn by_venue<T>(shape: Shape, rest: T, close: T) -> (T, T) {
    match shape {
        Shape::RestKalshi => (rest, close),
        Shape::RestPmUs => (close, rest),
    }
}

/// The two fills mapped onto the venues that paid them, Kalshi first.
pub fn fills_by_venue<'a>(o: &Order, rest_fill: &'a str, close_fill: &'a str) -> (r: (
    &'a str,
    &'a str,
))
    ensures
        r == by_venue(o.shape, rest_fill, close_fill),
{
    match o.shape {
        Shape::RestKalshi => (rest_fill, close_fill),
        Shape::RestPmUs => (close_fill, rest_fill),
    }
}

/// A cross lifts the side of the book opposite to the one that its shape
/// rests, on the same market.
pub proof fn law_a_cross_lifts_the_opposite_side(shape: Shape, market: Seq<char>, pm: Seq<char>)
    ensures
        rest_side(shape, market, pm).0 == lift_side(shape, market, pm).0,
        rest_side(shape, market, pm).1 != lift_side(shape, market, pm).1,
{
    reveal_strlit("ask");
    reveal_strlit("bid");
    assert("ask"@[0] != "bid"@[0]);
}

/// The leg that rests and the leg that closes are the two markets of the
/// pair, and each venue gets the fill of its own leg.
pub proof fn law_each_fill_goes_to_the_venue_that_paid_it(o: Order, rest: Seq<char>, close: Seq<char>)
    ensures
        o.shape.rests_at() == Venue::Kalshi ==> by_venue(o.shape, rest, close) == (rest, close),
        o.shape.closes_at() == Venue::Kalshi ==> by_venue(o.shape, rest, close) == (close, rest),
        o.shape.rests_at() == Venue::Kalshi ==> o.rests_on() == o.market && o.closes_on()
            == o.pm_market,
        o.shape.rests_at() == Venue::PolymarketUs ==> o.rests_on() == o.pm_market && o.closes_on()
            == o.market,
{
}

} // verus!
