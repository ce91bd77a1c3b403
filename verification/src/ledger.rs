//! What the ledger's open lots hold.
use crate::order::Order;
use crate::text::same;
use crate::venue::Venue;
use vstd::prelude::*;

verus! {

/// A leg of an open lot, as the ledger has it.
#[derive(Debug)]
pub struct LotLeg {
    pub venue: String,
    pub market_id: String,
}

/// A lot that is open, and how many contracts of it are.
#[derive(Debug)]
pub struct OpenLot {
    pub qty: i64,
    pub legs: Vec<LotLeg>,
}

/// Whether a lot has a leg on a market of a venue.
pub open spec fn stands_on(lot: OpenLot, venue: Venue, market: Seq<char>) -> bool {
    exists|i: int|
        0 <= i < lot.legs@.len() && (#[trigger] lot.legs@[i]).venue@ == venue.name()
            && lot.legs@[i].market_id@ == market
}

/// The contracts of those of the first `n` lots that have a leg on a market of a
/// venue.
pub open spec fn total_on(lots: Seq<OpenLot>, venue: Venue, market: Seq<char>, n: nat) -> int
    decreases n,
{
    if n == 0 {
        0
    } else {
        total_on(lots, venue, market, (n - 1) as nat) + (if stands_on(
            lots[n - 1],
            venue,
            market,
        ) {
            lots[n - 1].qty as int
        } else {
            0
        })
    }
}

/// Whether the contracts on a market can be added up.
pub open spec fn adds_up(lots: Seq<OpenLot>, venue: Venue, market: Seq<char>) -> bool {
    forall|n: nat|
        n <= lots.len() ==> i64::MIN <= #[trigger] total_on(lots, venue, market, n) <= i64::MAX
}

fn is_on(lot: &OpenLot, venue: Venue, market: &str) -> (r: bool)
    ensures
        r == stands_on(*lot, venue, market@),
{
    let mut i: usize = 0;
    while i < lot.legs.len()
        invariant
            i <= lot.legs@.len(),
            forall|j: int|
                0 <= j < i ==> !((#[trigger] lot.legs@[j]).venue@ == venue.name()
                    && lot.legs@[j].market_id@ == market@),
        decreases lot.legs@.len() - i,
    {
        if same(lot.legs[i].venue.as_str(), venue.as_str()) && same(
            lot.legs[i].market_id.as_str(),
            market,
        ) {
            return true;
        }
        i = i + 1;
    }
    false
}

/// How many contracts the open lots hold on a market of a venue.
pub fn open_on(lots: &Vec<OpenLot>, venue: Venue, market: &str) -> (r: i64)
    requires
        adds_up(lots@, venue, market@),
    ensures
        r == total_on(lots@, venue, market@, lots@.len()),
{
    let mut sum: i64 = 0;
    let mut i: usize = 0;
    while i < lots.len()
        invariant
            i <= lots@.len(),
            adds_up(lots@, venue, market@),
            sum == total_on(lots@, venue, market@, i as nat),
        decreases lots@.len() - i,
    {
        assert(i64::MIN <= total_on(lots@, venue, market@, (i + 1) as nat) <= i64::MAX);
        if is_on(&lots[i], venue, market) {
            sum = sum + lots[i].qty;
        }
        i = i + 1;
    }
    sum
}

/// The contracts of the open lots where an order rests.
pub open spec fn held_at_rest(lots: Seq<OpenLot>, o: Order) -> int {
    total_on(lots, o.shape.rests_at(), o.rests_on()@, lots.len())
}

/// The contracts of the open lots where an order closes.
pub open spec fn held_at_close(lots: Seq<OpenLot>, o: Order) -> int {
    total_on(lots, o.shape.closes_at(), o.closes_on()@, lots.len())
}

/// What the ledger says that is held where an order rests.
pub fn expected_at_rest(lots: &Vec<OpenLot>, o: &Order) -> (r: i64)
    requires
        adds_up(lots@, o.shape.rests_at(), o.rests_on()@),
    ensures
        r == held_at_rest(lots@, *o),
        r == total_on(lots@, o.shape.rests_at(), o.rests_on()@, lots@.len()),
{
    open_on(lots, o.shape.rest_venue(), o.rest_market())
}

/// What the ledger says that is held where an order closes.
pub fn expected_at_close(lots: &Vec<OpenLot>, o: &Order) -> (r: i64)
    requires
        adds_up(lots@, o.shape.closes_at(), o.closes_on()@),
    ensures
        r == held_at_close(lots@, *o),
        r == total_on(lots@, o.shape.closes_at(), o.closes_on()@, lots@.len()),
{
    open_on(lots, o.shape.close_venue(), o.close_market())
}

/// Lots that have no leg on a market count nothing there, and one more that has
/// counts all that is open of it.
pub proof fn law_a_lot_counts_where_it_stands(
    lots: Seq<OpenLot>,
    lot: OpenLot,
    venue: Venue,
    market: Seq<char>,
)
    ensures
        total_on(lots.push(lot), venue, market, lots.len() + 1) == total_on(
            lots,
            venue,
            market,
            lots.len(),
        ) + (if stands_on(lot, venue, market) {
            lot.qty as int
        } else {
            0
        }),
{
    lemma_total_before(lots, lot, venue, market, lots.len());
}

proof fn lemma_total_before(
    lots: Seq<OpenLot>,
    lot: OpenLot,
    venue: Venue,
    market: Seq<char>,
    n: nat,
)
    requires
        n <= lots.len(),
    ensures
        total_on(lots.push(lot), venue, market, n) == total_on(lots, venue, market, n),
    decreases n,
{
    if n > 0 {
        lemma_total_before(lots, lot, venue, market, (n - 1) as nat);
    }
}

} // verus!
