//! What positions say of an order that vanished and of a close that failed.
use crate::board::EngineView;
use crate::closing::{contracts, still_held, still_owed};
use crate::exit::{gone, heal_plan, vanished, HealPlan, NetRead, Vanished};
use crate::fees::FeeSchedule;
use crate::ledger::{held_at_close, held_at_rest, total_on, OpenLot};
use crate::order::Order;
use crate::venue::{Shape, Venue};
use vstd::prelude::*;

verus! {

/// What a venue reports of `h` contracts that are held of the leg on which an exit
/// rests or closes: Kalshi is long, and PM-US short.
pub open spec fn reported(shape_on_kalshi: bool, h: int) -> int {
    if shape_on_kalshi {
        h * 1_000_000
    } else {
        -(h * 1_000_000)
    }
}

/// An order that vanished has traded exactly what is missing: of `e` contracts
/// that the ledger expects where the venue holds `h`, for either shape. It has
/// traded nothing only where nothing is missing, and more than it ordered is never
/// taken for its own doing.
pub proof fn law_a_vanished_order_traded_what_is_missing(o: Order, e: i64, h: int, net: i64)
    requires
        h >= 0,
        net == reported(o.shape == Shape::RestKalshi, h),
    ensures
        ({
            let v = vanished(o, Some(e), NetRead::Row { net });
            &&& e <= h ==> v == Vanished::TradedNothing
            &&& 1 <= e - h <= o.qty ==> v == (Vanished::Traded { qty: (e - h) as i64 })
            &&& e - h >= 1 && e - h > o.qty ==> v == (Vanished::TooMuch { gone: (e - h) as i64 })
        }),
{
    let missing = (e - h) * 1_000_000;
    assert(missing == e * 1_000_000 - h * 1_000_000) by (nonlinear_arith)
        requires
            missing == (e - h) * 1_000_000,
    ;
    lemma_whole(e - h);
}

proof fn lemma_whole(n: int)
    ensures
        contracts(n * 1_000_000) == n,
{
    if n >= 0 {
        assert((n * 1_000_000 + 500_000) / 1_000_000 == n);
    } else {
        assert((500_000 - n * 1_000_000) / 1_000_000 == -n);
    }
}

/// A count of millionths is rounded to the nearest whole contract.
pub proof fn law_contracts_are_counted_to_the_nearest(micro: int)
    ensures
        -1_000_000 <= 2 * (contracts(micro) * 1_000_000 - micro) <= 1_000_000,
        contracts(-micro) == -contracts(micro),
{
}

/// A market that is missing from a venue's positions holds nothing: on Kalshi all
/// that the ledger expects is then gone, and on PM-US, whose answers may be
/// degraded, nothing is concluded where something was expected.
pub proof fn law_an_absent_position_is_nothing_held(o: Order, e: i64)
    ensures
        o.shape == Shape::RestKalshi ==> vanished(o, Some(e), NetRead::NoRow) == vanished(
            o,
            Some(e),
            NetRead::Row { net: 0 },
        ),
        o.shape == Shape::RestPmUs && e > 0 ==> vanished(o, Some(e), NetRead::NoRow)
            == Vanished::Degraded,
        o.shape == Shape::RestPmUs && e <= 0 ==> vanished(o, Some(e), NetRead::NoRow)
            == Vanished::TradedNothing,
{
    lemma_whole(e as int);
}

/// A position on the wrong side of zero: a PM-US leg that reads long holds none of
/// its short, and a Kalshi leg that reads short has sold that much more.
pub proof fn law_a_position_on_the_wrong_side(o: Order, e: i64, h: int, net: i64)
    requires
        h > 0,
        net == -reported(o.shape == Shape::RestKalshi, h),
        1 <= e,
        e + h <= o.qty,
    ensures
        o.shape == Shape::RestPmUs ==> vanished(o, Some(e), NetRead::Row { net })
            == (Vanished::Traded { qty: e }),
        o.shape == Shape::RestKalshi ==> vanished(o, Some(e), NetRead::Row { net })
            == (Vanished::Traded { qty: (e + h) as i64 }),
{
    lemma_whole(e as int);
    lemma_whole(e + h);
}

/// What could not be read decides nothing: neither of an order that vanished nor of
/// a close that failed.
pub proof fn law_an_unread_position_decides_nothing(
    fees: FeeSchedule,
    o: Order,
    filled: i64,
    attempts: u32,
    net: NetRead,
    n: Option<i64>,
    ledger: Option<i64>,
    view: EngineView,
)
    ensures
        vanished(o, None, net) == Vanished::NoLedger,
        vanished(o, Some(filled), NetRead::Unreadable) == Vanished::NoPositions,
        heal_plan(fees, o, filled, attempts, None, ledger, view) == HealPlan::NoPositions,
        n is Some ==> heal_plan(fees, o, filled, attempts, n, None, view) == HealPlan::NoLedger,
{
}

/// A close that failed owes what its first leg traded, less what is already gone of
/// the leg that it closes: of `l` contracts that the ledger holds there where the
/// venue holds `h`. A retry is sized to that, and it is over where nothing is owed.
pub proof fn law_a_failed_close_owes_what_is_still_held(
    fees: FeeSchedule,
    o: Order,
    filled: i64,
    attempts: u32,
    l: i64,
    h: int,
    net: i64,
    view: EngineView,
)
    requires
        filled >= 0,
        h >= 0,
        net == reported(o.shape == Shape::RestPmUs, h),
    ensures
        ({
            let owed = if l <= h {
                filled as int
            } else if filled > l - h {
                filled - (l - h)
            } else {
                0
            };
            let plan = heal_plan(fees, o, filled, attempts, Some(net), Some(l), view);
            &&& still_owed(o.shape, filled as int, l as int, net as int) == owed
            &&& owed == 0 <==> plan == HealPlan::Settled
            &&& plan matches HealPlan::Send { owed: n, .. } ==> n == owed
            &&& plan matches HealPlan::NotYet { owed: n, .. } ==> n == owed
            &&& plan matches HealPlan::Dark { owed: n, .. } ==> n == owed
            &&& !(plan is NoPositions) && !(plan is NoLedger) && !(plan is Nothing)
        }),
{
    lemma_whole(h);
}

/// The ledger is asked about the leg in question: where an exit rests on Kalshi it
/// expects what the lots hold on its Kalshi ticker, and closes what they hold on
/// its PM-US market; where it rests on PM-US, the other way round.
pub proof fn law_the_ledger_is_asked_about_the_leg(lots: Seq<OpenLot>, o: Order)
    ensures
        ({
            let k = total_on(lots, Venue::Kalshi, o.market@, lots.len());
            let pm = total_on(lots, Venue::PolymarketUs, o.pm_market@, lots.len());
            match o.shape {
                Shape::RestKalshi => held_at_rest(lots, o) == k && held_at_close(lots, o) == pm,
                Shape::RestPmUs => held_at_rest(lots, o) == pm && held_at_close(lots, o) == k,
            }
        }),
{
}

/// Half a contract counts as a whole one, on either side of nothing.
pub proof fn law_half_a_contract_counts_as_one(n: int)
    requires
        n >= 0,
    ensures
        contracts(n * 1_000_000 + 500_000) == n + 1,
        contracts(-(n * 1_000_000 + 500_000)) == -(n + 1),
{
}

/// However a venue reports a position, what is still held of the open leg is what it
/// reports to the nearest contract, and nothing where it reports the other side:
/// Kalshi is long, and PM-US short.
pub proof fn law_what_is_held_is_what_is_reported(shape: Shape, net: int)
    ensures
        ({
            let long = match shape {
                Shape::RestKalshi => -net,
                Shape::RestPmUs => net,
            };
            &&& long >= 0 ==> -1_000_000 <= 2 * (still_held(shape, net) * 1_000_000 - long)
                <= 1_000_000
            &&& long < 0 ==> still_held(shape, net) == 0
            &&& still_held(shape, net) >= 0
        }),
{
}

/// However a venue reports a position, what is gone of the resting leg is what the
/// ledger expects less what it reports, to the nearest contract: Kalshi is long,
/// and PM-US short, where the other side counts as nothing held.
pub proof fn law_what_is_gone_is_what_is_not_reported(shape: Shape, expected: i64, net: i64)
    ensures
        ({
            let held = match shape {
                Shape::RestKalshi => net as int,
                Shape::RestPmUs => if net < 0 {
                    -net
                } else {
                    0
                },
            };
            -1_000_000 <= 2 * (gone(shape, expected, NetRead::Row { net }) * 1_000_000 - (expected
                * 1_000_000 - held)) <= 1_000_000
        }),
{
    let held = match shape {
        Shape::RestKalshi => net as int,
        Shape::RestPmUs => if net < 0 {
            -net
        } else {
            0
        },
    };
    law_contracts_are_counted_to_the_nearest(expected * 1_000_000 - held);
}

/// What a vanished order comes to is told by what is gone: nothing where none is,
/// so many where the order can account for them, and too much where it cannot.
pub proof fn law_a_vanished_order_is_told_by_what_is_gone(o: Order, expected: i64, net: i64)
    ensures
        ({
            let n = gone(o.shape, expected, NetRead::Row { net });
            let v = vanished(o, Some(expected), NetRead::Row { net });
            &&& v is TradedNothing <==> n <= 0
            &&& v is Traded <==> 1 <= n <= o.qty
            &&& v is TooMuch <==> n >= 1 && n > o.qty
            &&& v matches Vanished::Traded { qty } ==> qty == n
        }),
{
}

/// What a close owes is what its first leg traded, less what is already gone from
/// the open leg by the ledger's own count, between nothing and all of it.
pub proof fn law_what_is_owed_is_what_is_not_gone(
    shape: Shape,
    filled: int,
    ledger_qty: int,
    net: int,
)
    requires
        filled >= 0,
    ensures
        ({
            let held = still_held(shape, net);
            let owed = still_owed(shape, filled, ledger_qty, net);
            &&& held >= ledger_qty ==> owed == filled
            &&& held < ledger_qty && filled >= ledger_qty - held ==> owed == filled - (ledger_qty
                - held)
            &&& held < ledger_qty && filled < ledger_qty - held ==> owed == 0
        }),
{
}

} // verus!
