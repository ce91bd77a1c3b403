//! The two venues, the sides and roles of an order, and which leg of an exit
//! rests.
use vstd::prelude::*;

verus! {

/// A venue that an exit trades on.
#[derive(Clone, Copy, Debug, PartialEq, Eq, Structural)]
pub enum Venue {
    Kalshi,
    PolymarketUs,
}

impl Venue {
    /// The name by which the ledger, the registry and the balances know a venue.
    pub open spec fn name(self) -> Seq<char> {
        match self {
            Venue::Kalshi => "kalshi"@,
            Venue::PolymarketUs => "polymarket_us"@,
        }
    }

    /// The venue's name.
    pub fn as_str(self) -> (r: &'static str)
        ensures
            r@ == self.name(),
    {
        match self {
            Venue::Kalshi => "kalshi",
            Venue::PolymarketUs => "polymarket_us",
        }
    }

    /// The other venue of the pair.
    pub open spec fn other(self) -> Venue {
        match self {
            Venue::Kalshi => Venue::PolymarketUs,
            Venue::PolymarketUs => Venue::Kalshi,
        }
    }
}

/// The fee role of a leg.
#[derive(Clone, Copy, Debug, PartialEq, Eq, Structural)]
pub enum Role {
    Maker,
    Taker,
}

impl Role {
    pub open spec fn name(self) -> Seq<char> {
        match self {
            Role::Maker => "maker"@,
            Role::Taker => "taker"@,
        }
    }

    pub fn as_str(self) -> (r: &'static str)
        ensures
            r@ == self.name(),
    {
        match self {
            Role::Maker => "maker",
            Role::Taker => "taker",
        }
    }
}

/// A side of the book.
#[derive(Clone, Copy, Debug, PartialEq, Eq, Structural)]
pub enum Side {
    Bid,
    Ask,
}

impl Side {
    /// The spelling of a side on the wire.
    pub open spec fn name(self) -> Seq<char> {
        match self {
            Side::Bid => "bid"@,
            Side::Ask => "ask"@,
        }
    }

    pub fn as_str(self) -> (r: &'static str)
        ensures
            r@ == self.name(),
    {
        match self {
            Side::Bid => "bid",
            Side::Ask => "ask",
        }
    }
}

/// How long an order stands.
#[derive(Clone, Copy, Debug, PartialEq, Eq, Structural)]
pub enum Tif {
    /// Until cancelled.
    Gtc,
    /// Fill what can be filled at once, and cancel the rest.
    Ioc,
}

/// Which way round the basket is held. In a standard basket the Kalshi leg is
/// long and is sold on the way out; in an inverse one the PM-US leg is.
#[derive(Clone, Copy, Debug, PartialEq, Eq, Structural)]
pub enum Direction {
    Standard,
    Inverse,
}

impl Direction {
    pub open spec fn sells_at(self, venue: Venue) -> bool {
        match self {
            Direction::Standard => venue == Venue::Kalshi,
            Direction::Inverse => venue == Venue::PolymarketUs,
        }
    }

    /// Whether leaving the basket sells at `venue`; it buys at the other one.
    pub fn sells(self, venue: Venue) -> (r: bool)
        ensures
            r == self.sells_at(venue),
    {
        match self {
            Direction::Standard => venue == Venue::Kalshi,
            Direction::Inverse => venue == Venue::PolymarketUs,
        }
    }

    /// Whether the basket is an inverse one.
    pub fn inverted(self) -> (r: bool)
        ensures
            r == (self == Direction::Inverse),
    {
        self == Direction::Inverse
    }

    pub open spec fn name(self) -> Seq<char> {
        match self {
            Direction::Standard => "Standard"@,
            Direction::Inverse => "Inverse"@,
        }
    }

    pub fn as_str(self) -> (r: &'static str)
        ensures
            r@ == self.name(),
    {
        match self {
            Direction::Standard => "Standard",
            Direction::Inverse => "Inverse",
        }
    }
}

/// Which leg of an exit rests; the other one is crossed when it fills.
#[derive(Clone, Copy, Debug, PartialEq, Eq, Structural)]
pub enum Shape {
    /// Rest a post-only Kalshi order; on a fill, cross on PM-US.
    RestKalshi,
    /// Rest a post-only PM-US order; on a fill, cross on Kalshi.
    RestPmUs,
}

impl Shape {
    pub open spec fn leg_roles(self) -> (Role, Role) {
        match self {
            Shape::RestKalshi => (Role::Maker, Role::Taker),
            Shape::RestPmUs => (Role::Taker, Role::Maker),
        }
    }

    /// The fee role that each leg pays, Kalshi first.
    pub fn roles(self) -> (r: (Role, Role))
        ensures
            r == self.leg_roles(),
    {
        match self {
            Shape::RestKalshi => (Role::Maker, Role::Taker),
            Shape::RestPmUs => (Role::Taker, Role::Maker),
        }
    }

    pub open spec fn rests_at(self) -> Venue {
        match self {
            Shape::RestKalshi => Venue::Kalshi,
            Shape::RestPmUs => Venue::PolymarketUs,
        }
    }

    /// The venue at which the post-only order rests.
    pub fn rest_venue(self) -> (r: Venue)
        ensures
            r == self.rests_at(),
    {
        match self {
            Shape::RestKalshi => Venue::Kalshi,
            Shape::RestPmUs => Venue::PolymarketUs,
        }
    }

    pub open spec fn closes_at(self) -> Venue {
        self.rests_at().other()
    }

    /// The venue at which the closing order crosses: the other one.
    pub fn close_venue(self) -> (r: Venue)
        ensures
            r == self.closes_at(),
    {
        match self {
            Shape::RestKalshi => Venue::PolymarketUs,
            Shape::RestPmUs => Venue::Kalshi,
        }
    }

    pub open spec fn tag_text(self) -> Seq<char> {
        match self {
            Shape::RestKalshi => "rest-kalshi"@,
            Shape::RestPmUs => "rest-pmus"@,
        }
    }

    /// A short tag for log lines and the ledger record.
    pub fn tag(self) -> (r: &'static str)
        ensures
            r@ == self.tag_text(),
    {
        match self {
            Shape::RestKalshi => "rest-kalshi",
            Shape::RestPmUs => "rest-pmus",
        }
    }
}

/// Whether leaving a standard basket sells its YES contracts at `v`: always at
/// Kalshi, where it is long, and never at PM-US, where it buys them back.
pub fn sells_yes(v: Venue) -> (r: bool)
    ensures
        r == Direction::Standard.sells_at(v),
{
    v == Venue::Kalshi
}

/// An order as it goes to a venue.
#[derive(Debug)]
pub struct PlaceRequest {
    pub market: String,
    pub side: Side,
    pub price: String,
    pub qty: i64,
    pub tif: Tif,
    pub post_only: bool,
    pub client_order_id: String,
}

/// The two legs of an exit are at different venues, exactly one leg is a
/// maker, and it is the one that rests.
pub proof fn law_one_leg_rests(shape: Shape)
    ensures
        shape.rests_at() != shape.closes_at(),
        shape.leg_roles().0 != shape.leg_roles().1,
        shape.leg_roles().0 == Role::Maker <==> shape.rests_at() == Venue::Kalshi,
        shape.leg_roles().1 == Role::Maker <==> shape.rests_at() == Venue::PolymarketUs,
{
}

/// Whichever way round a basket is held and whichever leg rests, leaving it
/// sells at one venue and buys at the other.
pub proof fn law_one_leg_sells(direction: Direction, shape: Shape)
    ensures
        direction.sells_at(shape.rests_at()) != direction.sells_at(shape.closes_at()),
{
}

/// The two shapes carry different tags.
pub proof fn law_tags_differ(a: Shape, b: Shape)
    ensures
        a.tag_text() == b.tag_text() <==> a == b,
{
    reveal_strlit("rest-kalshi");
    reveal_strlit("rest-pmus");
    assert("rest-kalshi"@.len() == 11);
    assert("rest-pmus"@.len() == 9);
}

} // verus!
