//! What the two orders of an exit do, and how an exit that rests or that failed to
//! close is looked after.
use crate::assoc::lookup;
use crate::board::EngineView;
use crate::close_laws::{
    against, closed_at, law_a_close_that_pays_is_priced, law_a_priced_close_trades_and_pays, trades,
};
use crate::closing::price_refusal;
use crate::decide_laws::{law_a_kept_exit_can_be_closed_whole, lifted};
use crate::decimal::fraction_of;
use crate::exit::{
    attempts_after, closes_exit, heal_plan, manage_step, opens_exit, to_book, FillRead, HealPlan,
    ManageStep, Poll,
};
use crate::fees::FeeSchedule;
use crate::gauges::Gauges;
use crate::live::{Live, PendingClose};
use crate::lot_steps::tried;
use crate::money::{qty_ok, Px};
use crate::order::Order;
use crate::position_laws::{law_a_failed_close_owes_what_is_still_held, reported};
use crate::pricing::reaches;
use crate::record::{after_booking, described, records, Booking, CloseRecord};
use crate::text::signed_numeral;
use crate::venue::{PlaceRequest, Role, Shape, Side, Tif, Venue};
use vstd::prelude::*;

verus! {

/// The two orders of an exit sell what is held on Kalshi and buy back what is
/// short on PM-US. The first one is for the whole exit: it rests, post-only, until
/// it is cancelled, at the exit's limit; or where the exit crosses it takes at
/// once, at the limit of the cross. The second one takes at once, for what it is
/// told to close.
pub proof fn law_an_exit_sells_on_kalshi_and_buys_on_pmus(
    first: PlaceRequest,
    second: PlaceRequest,
    o: Order,
    price: Seq<char>,
    qty: i64,
    a: Seq<char>,
    b: Seq<char>,
)
    requires
        opens_exit(first, o, a),
        closes_exit(second, o, price, qty as int, b),
    ensures
        ({
            let (k, pm) = match o.shape {
                Shape::RestKalshi => (first, second),
                Shape::RestPmUs => (second, first),
            };
            &&& k.market@ == o.market@ && k.side == Side::Ask
            &&& pm.market@ == o.pm_market@ && pm.side == Side::Bid
        }),
        first.qty == o.qty,
        first.client_order_id@ == a,
        o.cross is None ==> first.price@ == o.limit@ && first.tif == Tif::Gtc && first.post_only,
        o.cross matches Some(c) ==> first.price@ == c.limit@ && first.tif == Tif::Ioc
            && !first.post_only,
        second.qty == qty,
        second.price@ == price,
        second.tif == Tif::Ioc,
        !second.post_only,
        second.client_order_id@ == b,
{
}

/// A close whose fill can be read is booked for what filled, as far as it was
/// asked for; one whose fill cannot be read, for nothing.
pub proof fn law_a_close_is_booked_for_what_filled(filled: i64, poll: Poll)
    requires
        filled >= 1,
    ensures
        poll.unreadable ==> to_book(filled, poll) == 0,
        !poll.unreadable && 0 <= poll.got <= filled ==> to_book(filled, poll) == poll.got,
        !poll.unreadable && poll.got >= filled ==> to_book(filled, poll) == filled,
        !poll.unreadable && poll.got < 0 ==> to_book(filled, poll) == 0,
{
}

/// Polling remembers the last count that could be read, and that the last read
/// failed, in whatever order the two come.
pub proof fn law_a_failed_read_forgets_no_count(p: Poll, n: i64)
    ensures
        p.after(Some(n)) == p.after(None).after(Some(n)),
        p.after(Some(n)).after(None).got == n,
        p.after(Some(n)).after(None).unreadable,
        !p.after(Some(n)).unreadable,
{
}

/// A resting exit that has filled is cancelled, for the count that was read. One
/// that has not is kept exactly where its price still pays and the ladder that its
/// close lifts is not known to be short. One whose fill cannot be read is kept in
/// its slot, unless its venue no longer knows it a minute after it was placed.
pub proof fn law_a_resting_exit_is_looked_after(
    live: Live,
    o: Order,
    since: u64,
    read: FillRead,
    view: EngineView,
    now: u64,
)
    requires
        live.resting matches Some(r) && r.order == o && r.since == since,
    ensures
        match read {
            FillRead::Filled { qty } => if qty >= 1 {
                manage_step(live, read, view, now) == (ManageStep::Cancel { filled: qty })
            } else {
                let short = lookup(
                    view.depth@,
                    lifted(o.direction, o.shape, o.market@, o.pm_market@),
                ) matches Some(d) && d < o.qty;
                if price_refusal(live.fees, o, view) is None && !short {
                    manage_step(live, read, view, now) is Keep
                } else {
                    manage_step(live, read, view, now) is Pull
                }
            },
            FillRead::Failed { status } => if status == Some(404u16) && since + 60_000_000_000
                <= now {
                manage_step(live, read, view, now) is Vanished
            } else {
                manage_step(live, read, view, now) is Hold
            },
        },
{
    law_a_kept_exit_can_be_closed_whole(live.fees, o, view);
}

/// A failed close is sent again, for what is still owed, as soon as that pays: if
/// any whole cent trades at once against the book of the open leg and locks half a
/// cent a contract, it goes out, at such a price.
pub proof fn law_a_failed_close_goes_out_where_it_pays(
    fees: FeeSchedule,
    o: Order,
    filled: i64,
    attempts: u32,
    view: EngineView,
    held: i64,
    net: i64,
    ledger_qty: i64,
    kb: (int, int),
    pb: (int, int),
    fill: (int, int),
    touch: (int, int),
    p: Px,
)
    requires
        fees.wf(),
        qty_ok(filled),
        filled <= ledger_qty,
        0 <= held,
        ledger_qty - filled < held <= ledger_qty,
        net == reported(o.shape == Shape::RestPmUs, held as int),
        fraction_of(o.k_basis@) == Some(kb),
        fraction_of(o.pm_basis@) == Some(pb),
        fraction_of(o.limit@) == Some(fill),
        against(o, view) matches Some(t) && fraction_of(t@) == Some(touch),
        0 < p < 1_000_000,
        p % 10_000 == 0,
        trades(o.shape, p as int, touch),
        reaches(
            closed_at(
                fees,
                o.shape,
                fill,
                p as int,
                kb,
                pb,
                (filled - (ledger_qty - held)) as i64,
            ),
            5_000,
        ),
    ensures
        ({
            let owed = (filled - (ledger_qty - held)) as i64;
            heal_plan(fees, o, filled, attempts, Some(net), Some(ledger_qty), view) matches
                HealPlan::Send { owed: n, price, forced } && n == owed && forced is None && trades(
                o.shape,
                price as int,
                touch,
            ) && reaches(closed_at(fees, o.shape, fill, price as int, kb, pb, owed), 5_000)
        }),
{
    let owed = (filled - (ledger_qty - held)) as i64;
    law_a_failed_close_owes_what_is_still_held(
        fees,
        o,
        filled,
        attempts,
        ledger_qty,
        held as int,
        net,
        view,
    );
    law_a_close_that_pays_is_priced(fees, o, owed, view, kb, pb, fill, touch, p);
    let price = crate::closing::close_price(fees, o, owed, view)->Ok_0;
    law_a_priced_close_trades_and_pays(fees, o, owed, view, kb, pb, fill, price);
}

/// A failed close goes out at a price that does not pay after ten tries, and not
/// before; from then on, as long as something is owed and the touch of the open
/// leg can be read, it goes out, unless a sale a cent under the touch would be at
/// no price at all.
pub proof fn law_a_close_is_forced_after_ten_tries(
    fees: FeeSchedule,
    o: Order,
    filled: i64,
    attempts: u32,
    net: i64,
    ledger_qty: i64,
    view: EngineView,
    touch: (int, int),
)
    requires
        against(o, view) matches Some(t) && fraction_of(t@) == Some(touch),
    ensures
        ({
            let plan = heal_plan(fees, o, filled, attempts, Some(net), Some(ledger_qty), view);
            &&& plan matches HealPlan::Send { forced: Some(_), .. } ==> attempts > 10
            &&& plan is NotYet ==> attempts <= 10
            &&& plan is NoThrough ==> match o.shape {
                Shape::RestKalshi => 100 * touch.0 + touch.1 <= 0,
                Shape::RestPmUs => 100 * touch.0 <= touch.1,
            }
            &&& plan is Settled || plan is NotYet || plan is NoThrough || plan is Send
        }),
{
}

/// A record books what each venue paid, in the part that the leg played: the leg
/// that rested was a maker and the other one a taker, and both were takers where
/// the exit crossed. It closes the one lot of the exit, at that lot's bases, and
/// says what was locked by what was sent.
pub proof fn law_a_record_books_each_leg_where_it_traded(
    r: CloseRecord,
    o: Order,
    rest_fill: Seq<char>,
    close_fill: Seq<char>,
    filled: i64,
    ts: u64,
    source: Seq<char>,
)
    requires
        records(r, o, rest_fill, close_fill, filled, ts, source),
    ensures
        r.closes_ts == o.closes_ts,
        r.qty == filled,
        r.relationship_id@ == o.rel_id@,
        r.maker_exit_k_basis@ == o.k_basis@,
        r.maker_exit_pm_basis@ == o.pm_basis@,
        o.cross is None ==> r.maker_exit_lock_ct@ == o.lock_ct@,
        o.cross matches Some(c) ==> r.maker_exit_lock_ct@ == c.lock_ct@,
        r.legs@.len() == 2,
        ({
            let (first, second) = match o.shape {
                Shape::RestKalshi => (r.legs@[0], r.legs@[1]),
                Shape::RestPmUs => (r.legs@[1], r.legs@[0]),
            };
            &&& first.yes_price@ == rest_fill
            &&& second.yes_price@ == close_fill
            &&& first.role == (if o.cross is Some {
                Role::Taker
            } else {
                Role::Maker
            })
            &&& second.role == Role::Taker
            &&& first.qty == filled && second.qty == filled
        }),
        r.legs@[0].venue == Venue::Kalshi && r.legs@[0].market_id@ == o.market@,
        r.legs@[0].side@ == "yes"@ && r.legs@[0].action@ == "sell"@,
        r.legs@[1].venue == Venue::PolymarketUs && r.legs@[1].market_id@ == o.pm_market@,
        r.legs@[1].side@ == "no"@ && r.legs@[1].action@ == "sell"@,
        r.ts == ts,
        r.source@ == source,
        r.status@ == "unwound"@,
        r.strategy@ == "maker-exit"@,
        r.fees_pending,
{
}

/// Every try at a failed close counts as one, as far as they can be counted.
pub proof fn law_each_try_counts(p: PendingClose)
    ensures
        p.attempts < u32::MAX ==> attempts_after(p) == p.attempts + 1,
        p.attempts == u32::MAX ==> attempts_after(p) == u32::MAX,
        tried(p.attempts) == attempts_after(p),
{
}

/// A close that could not be written into the ledger counts as a naked leg, and not
/// as a basket closed; every other one, whatever else was found there, counts as
/// closed.
pub proof fn law_a_close_that_is_not_booked_is_not_closed(g: Gauges, b: Booking)
    requires
        g.unresolved < u64::MAX,
        g.closed < u64::MAX,
    ensures
        b is Failed ==> after_booking(g, b) == (Gauges { unresolved: (g.unresolved + 1) as u64, ..g }),
        !(b is Failed) ==> after_booking(g, b) == (Gauges { closed: (g.closed + 1) as u64, ..g }),
{
}

/// The line that says what was decided begins with what rests: an ask on the Kalshi
/// ticker or a bid on the PM-US market, for how many contracts and at which limit.
pub proof fn law_a_decision_is_told_by_what_rests(
    o: Order,
    shadow: bool,
    held_ns: u64,
    opened: &str,
)
    ensures
        ({
            let front = "[maker-exit]"@ + (if shadow {
                " SHADOW —"@
            } else {
                ""@
            }) + " "@ + (match o.shape {
                Shape::RestKalshi => "REST ASK"@,
                Shape::RestPmUs => "REST BID"@,
            }) + " "@ + signed_numeral(o.qty as int) + "x "@ + (match o.shape {
                Shape::RestKalshi => o.market@,
                Shape::RestPmUs => o.pm_market@,
            }) + " @ "@ + o.limit@;
            let text = described(o, shadow, held_ns, opened);
            front.len() <= text.len() && text.take(front.len() as int) == front
        }),
{
    let front = "[maker-exit]"@ + (if shadow {
        " SHADOW —"@
    } else {
        ""@
    }) + " "@ + (match o.shape {
        Shape::RestKalshi => "REST ASK"@,
        Shape::RestPmUs => "REST BID"@,
    }) + " "@ + signed_numeral(o.qty as int) + "x "@ + (match o.shape {
        Shape::RestKalshi => o.market@,
        Shape::RestPmUs => o.pm_market@,
    }) + " @ "@ + o.limit@;
    let text = described(o, shadow, held_ns, opened);
    assert(text.take(front.len() as int) =~= front);
}

} // verus!
