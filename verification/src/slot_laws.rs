//! What a pass over the exit slot sends, hands over and books.
use crate::assoc::lookup;
use crate::closing::{close_price, still_owed};
use crate::decimal::fraction_of;
use crate::exit::{
    left_because, manage_step, touch_text, vanished, FillRead, HealPlan, NetRead, PlaceReply,
    Vanished,
};
use crate::fill_laws::{
    law_an_exit_is_booked_no_worse_than_its_limits, lemma_booked, no_lower,
};
use crate::fills::OrderFill;
use crate::gauges::Gauges;
use crate::live::{parked_at, Live, PendingClose, Resting};
use crate::order::Order;
use crate::record::alarm_text;
use crate::slot::{moved, polled, polls_on, waits, Around, Event, Step, Taking, Wait};
use crate::text::{listed, signed_numeral};
use crate::venue::{PlaceRequest, Shape, Side, Tif};
use vstd::prelude::*;

verus! {

/// Whether a request takes the second leg of an exit at once: a purchase on PM-US
/// where the exit rested on Kalshi, and a sale on Kalshi where it rested on PM-US.
pub open spec fn takes_second_leg(req: PlaceRequest, o: Order) -> bool {
    &&& req.tif == Tif::Ioc && !req.post_only
    &&& match o.shape {
        Shape::RestKalshi => req.market@ == o.pm_market@ && req.side == Side::Bid,
        Shape::RestPmUs => req.market@ == o.market@ && req.side == Side::Ask,
    }
}

/// Whether a step closes so many contracts of an exit: it sends an order for them,
/// or hands them over to be healed, with an alarm and its slot left free.
pub open spec fn closes_or_hands_over(step: Step, post: Live, o: Order, qty: int) -> bool {
    ||| {
        &&& step.go is Ask && step.go->act is Send
        &&& takes_second_leg(step.go->act->req, o)
        &&& step.go->act->req.qty == qty
        &&& post.resting is None
    }
    ||| {
        &&& step.go is Done && step.go->book is None
        &&& step.naked is Some
        &&& post.pending matches Some(p) && p.order == o && p.filled == qty && p.attempts == 0
        &&& post.resting is None
    }
}

/// Once an exit that filled is off its venue, the larger of the two counts is
/// closed or handed over, as far as it was ordered; and what is above that alarms.
pub proof fn law_the_larger_of_two_counts_is_closed(
    pre: Live,
    filled: i64,
    n: Option<i64>,
    post: Live,
    g: Gauges,
    h: Gauges,
    by: Around,
    step: Step,
    qty: int,
)
    requires
        waits(pre, Wait::Reread { filled }),
        moved(pre, Wait::Reread { filled }, Event::Count { n }, post, g, h, by, step),
        ({
            let ordered = pre.resting->0.order.qty;
            &&& qty <= ordered
            &&& qty == ordered || (qty >= filled && (n matches Some(k) ==> qty >= k))
            &&& qty == filled || n == Some(qty as i64) || (qty == ordered && (filled >= ordered || (
            n matches Some(k) && k >= ordered)))
        }),
    ensures
        closes_or_hands_over(step, post, pre.resting->0.order, qty),
        step.excess is Some <==> filled > pre.resting->0.order.qty || (n matches Some(k) && k
            > pre.resting->0.order.qty),
{
}

/// What a vanished order traded is closed or handed over; one that traded nothing
/// leaves the slot; and on anything that is not known the slot is held.
pub proof fn law_a_vanished_order_is_closed_for_what_it_traded(
    pre: Live,
    event: Event,
    post: Live,
    g: Gauges,
    h: Gauges,
    by: Around,
    step: Step,
)
    requires
        waits(pre, Wait::Vanish),
        moved(pre, Wait::Vanish, event, post, g, h, by, step),
    ensures
        match vanished(pre.resting->0.order, event->expected, event->net) {
            Vanished::Traded { qty } => closes_or_hands_over(
                step,
                post,
                pre.resting->0.order,
                qty as int,
            ),
            Vanished::TradedNothing => post.resting is None && post.pending == pre.pending,
            _ => post == pre,
        },
        !(vanished(pre.resting->0.order, event->expected, event->net) is Traded) ==> step.go is Done
            && step.go->book is None,
{
}

/// A first leg that crossed is closed for what filled of it, once that can be read;
/// nothing is closed for one that did not fill, and one that cannot be read is
/// counted as naked.
pub proof fn law_a_cross_is_closed_for_what_filled(
    pre: Live,
    order: Order,
    client: String,
    t: Taking,
    n: Option<i64>,
    post: Live,
    g: Gauges,
    h: Gauges,
    by: Around,
    step: Step,
)
    requires
        waits(pre, Wait::CrossFill { order, client, t }),
        moved(
            pre,
            Wait::CrossFill { order, client, t },
            Event::Count { n },
            post,
            g,
            h,
            by,
            step,
        ),
        t.left == 0 || (n matches Some(k) && k >= 1),
    ensures
        n is Some && n->0 >= 1 ==> closes_or_hands_over(step, post, order, n->0 as int),
        n is Some && n->0 < 1 ==> post == pre && step.go is Done && h == g,
        n is None ==> post == pre && step.go is Done && h == g.plus_unresolved(),
{
}

/// An order that takes at once is asked about again only while nothing of it has
/// filled and it may still be asked.
pub proof fn law_an_order_is_polled_until_it_fills(t: Taking, n: Option<i64>)
    ensures
        polls_on(t, n) <==> t.left > 0 && (n is None || n->0 <= 0),
{
}

/// A close that failed is over once a retry has filled all that was owed, and not
/// before. Then it is booked for all that its first leg traded, the first leg at
/// the price it was sent at, and the retry at no worse than its limit.
pub proof fn law_a_failed_close_is_over_once_all_of_it_filled(
    pre: Live,
    owed: i64,
    t: Taking,
    n: i64,
    post: Live,
    g: Gauges,
    h: Gauges,
    by: Around,
    step: Step,
)
    requires
        waits(pre, Wait::HealFill { owed, t }),
        moved(
            pre,
            Wait::HealFill { owed, t },
            Event::Count { n: Some(n) },
            post,
            g,
            h,
            by,
            step,
        ),
    ensures
        n >= owed && (t.left == 0 || n >= 1) ==> post.pending is None && h == g.plus_healed()
            && step.go is Ask && step.go->wait is HealPrice && Some(step.go->wait->HealPrice_p)
            == pre.pending && step.go->wait->HealPrice_limit == t.limit,
        n < owed ==> post.pending == pre.pending && h == g,
{
}

/// What is booked of a close that was healed.
pub proof fn law_a_healed_close_is_booked_whole(
    pre: Live,
    p: PendingClose,
    limit: String,
    event: Event,
    post: Live,
    g: Gauges,
    h: Gauges,
    by: Around,
    step: Step,
    lim: (int, int),
)
    requires
        moved(pre, Wait::HealPrice { p, limit }, event, post, g, h, by, step),
        fraction_of(limit@) == Some(lim),
    ensures
        step.go is Done,
        step.go->book is Some,
        ({
            let b = step.go->book->0;
            &&& b.order == p.order && b.qty == p.filled && b.rest@ == p.order.sent_at()@
            &&& fraction_of(b.close@) matches Some(y) && (match p.order.shape {
                Shape::RestKalshi => no_lower(lim, y),
                Shape::RestPmUs => no_lower(y, lim),
            })
        }),
{
    crate::closing::lemma_read_is_proper(limit@);
    lemma_booked(event->close, limit@, p.order.shape == Shape::RestPmUs, lim);
}

/// Where a cancellation did not complete, the market on which the order may still
/// rest is worked for good: the Kalshi market of one that rested there, or the
/// PM-US market.
pub proof fn law_an_order_that_may_still_rest_keeps_its_market(
    pre: Live,
    wait: Wait,
    o: Order,
    event: Event,
    post: Live,
    g: Gauges,
    h: Gauges,
    by: Around,
    step: Step,
)
    requires
        waits(pre, wait),
        moved(pre, wait, event, post, g, h, by, step),
        match wait {
            Wait::Cancel { .. } => pre.resting->0.order == o,
            Wait::Pulled { r } => r.order == o,
            _ => false,
        },
    ensures
        !event->Cancelled_done ==> listed(
            post.unaddressable@,
            match o.shape {
                Shape::RestKalshi => o.market@,
                Shape::RestPmUs => o.pm_market@,
            },
        ),
        event->Cancelled_done ==> post.unaddressable == pre.unaddressable,
{
}

/// A halted market is left alone for the time that the venue asks, by its Kalshi
/// ticker, and no other market is; the refusals in a row are counted. An order that
/// was accepted holds the slot from now on, and one that may rest under an id that
/// was never learned keeps its market.
pub proof fn law_what_follows_where_an_exit_was_sent_to_rest(
    pre: Live,
    order: Order,
    client: String,
    reply: PlaceReply,
    post: Live,
    g: Gauges,
    h: Gauges,
    by: Around,
    step: Step,
    market: Seq<char>,
    t: u64,
)
    requires
        moved(
            pre,
            Wait::Placed { order, client },
            Event::Sent { reply },
            post,
            g,
            h,
            by,
            step,
        ),
    ensures
        reply is Halted && t < u64::MAX ==> (parked_at(post.parked@, order.market@, t) <==> t
            < by.now + by.park_ns),
        reply is Halted ==> lookup(post.parked@, order.market@)->0.strikes == (match lookup(
            pre.parked@,
            order.market@,
        ) {
            Some(p) => if p.strikes < u32::MAX {
                p.strikes + 1
            } else {
                p.strikes as int
            },
            None => 1int,
        }),
        market != order.market@ || !(reply is Halted) ==> parked_at(post.parked@, market, t)
            == parked_at(pre.parked@, market, t),
        reply is Lost ==> listed(post.unaddressable@, order.market@),
        reply is Accepted ==> h == g.plus_placed() && post.resting is Some && post.resting->0.order
            == order && post.resting->0.since == by.now,
        !(reply is Accepted) ==> post.resting == pre.resting,
{
}

/// Where a failed close is healed, a market without a position counts as one of
/// which nothing is held; a read that failed decides nothing.
pub proof fn law_a_market_without_a_position_holds_nothing(
    pre: Live,
    expected: Option<i64>,
    post: Live,
    g: Gauges,
    h: Gauges,
    by: Around,
    step: Step,
)
    requires
        waits(pre, Wait::Heal),
    ensures
        moved(pre, Wait::Heal, Event::Net { expected, net: NetRead::NoRow }, post, g, h, by, step)
            <==> moved(
            pre,
            Wait::Heal,
            Event::Net { expected, net: NetRead::Row { net: 0 } },
            post,
            g,
            h,
            by,
            step,
        ),
        moved(
            pre,
            Wait::Heal,
            Event::Net { expected, net: NetRead::Unreadable },
            post,
            g,
            h,
            by,
            step,
        ) ==> step.go is Done && step.go->book is None && post.pending is Some && h == g,
{
}

/// A close that the venue says is done after all is booked for all that its first
/// leg traded.
pub proof fn law_a_close_that_is_done_after_all_is_booked_whole(
    pre: Live,
    expected: i64,
    net: i64,
    post: Live,
    g: Gauges,
    h: Gauges,
    by: Around,
    step: Step,
)
    requires
        waits(pre, Wait::Heal),
        moved(
            pre,
            Wait::Heal,
            Event::Net { expected: Some(expected), net: NetRead::Row { net } },
            post,
            g,
            h,
            by,
            step,
        ),
        post.pending is None,
    ensures
        pre.pending is Some,
        h == g.plus_healed(),
        step.go is Done && step.go->book is Some,
        step.go->book->0.order == pre.pending->0.order,
        step.go->book->0.qty == pre.pending->0.filled,
        still_owed(
            pre.pending->0.order.shape,
            pre.pending->0.filled as int,
            expected as int,
            net as int,
        ) <= 0,
{
    let p = pre.pending->0;
    assert(crate::money::qty_ok(p.filled));
    assert(still_owed(p.order.shape, p.filled as int, expected as int, net as int) <= p.filled);
}

/// A poll is asked one time less for each answer, and keeps the order, its limit
/// and the last count that could be read.
pub proof fn law_a_poll_is_asked_one_time_less(t: Taking, u: Taking, n: Option<i64>)
    requires
        polled(t, u, n),
    ensures
        u.left == t.left - 1,
        u.id == t.id && u.limit == t.limit,
        n is Some ==> u.poll.got == n->0 && !u.poll.unreadable,
        n is None ==> u.poll.got == t.poll.got && u.poll.unreadable,
{
}

/// Each try at a failed close counts, and leaves what it closes as it was; in the
/// first ten an order goes out only at a price that pays, and from the eleventh on
/// none waits for one.
pub proof fn law_a_failed_close_waits_for_ten_tries(
    pre: Live,
    event: Event,
    post: Live,
    g: Gauges,
    h: Gauges,
    by: Around,
    step: Step,
    p: PendingClose,
)
    requires
        waits(pre, Wait::Heal),
        moved(pre, Wait::Heal, event, post, g, h, by, step),
        pre.pending == Some(p),
        p.attempts < u32::MAX,
    ensures
        post.pending matches Some(q) ==> q.attempts == p.attempts + 1 && q.order == p.order
            && q.filled == p.filled && q.since == p.since,
        step.found is Healing,
        step.found->by matches HealPlan::Send { forced: Some(_), .. } ==> p.attempts >= 10,
        step.found->by is NotYet ==> p.attempts < 10,
        step.go is Ask <==> step.found->by is Send,
        step.found->by matches HealPlan::Send { owed, .. } ==> takes_second_leg(
            step.go->act->req,
            p.order,
        ) && step.go->act->req.qty == owed,
{
}

/// A close is booked for what it closed, at prices no worse than the limits of its
/// two orders: no lower where Kalshi was sold, and no higher where PM-US was bought.
pub proof fn law_a_close_is_booked_no_worse_than_its_limits(
    pre: Live,
    r: Resting,
    booked: i64,
    limit: String,
    rest: Option<OrderFill>,
    close: Option<OrderFill>,
    post: Live,
    g: Gauges,
    h: Gauges,
    by: Around,
    step: Step,
    sent: (int, int),
    lim: (int, int),
)
    requires
        moved(
            pre,
            Wait::ClosePrices { r, booked, limit },
            Event::Priced { rest, close },
            post,
            g,
            h,
            by,
            step,
        ),
        fraction_of(
            (match r.order.cross {
                Some(c) => c.limit,
                None => r.order.limit,
            })@,
        ) == Some(sent),
        fraction_of(limit@) == Some(lim),
    ensures
        post == pre,
        step.go is Done && step.go->book is Some,
        ({
            let b = step.go->book->0;
            let (sold, bought, s, t) = match r.order.shape {
                Shape::RestKalshi => (b.rest@, b.close@, sent, lim),
                Shape::RestPmUs => (b.close@, b.rest@, lim, sent),
            };
            &&& b.order == r.order
            &&& b.qty == booked
            &&& fraction_of(sold) matches Some(x) && no_lower(x, s)
            &&& fraction_of(bought) matches Some(y) && no_lower(t, y)
        }),
{
    law_an_exit_is_booked_no_worse_than_its_limits(r.order, rest, close, limit@, sent, lim);
    crate::closing::lemma_read_is_proper(limit@);
    crate::closing::lemma_read_is_proper(r.order.sent_at()@);
    lemma_booked(None, limit@, true, lim);
    lemma_booked(None, limit@, false, lim);
    lemma_booked(None, r.order.sent_at()@, true, sent);
    lemma_booked(None, r.order.sent_at()@, false, sent);
}

/// Whether a line is the alarm of so many contracts of an exit, with some reason.
pub open spec fn alarms(
    line: Seq<char>,
    o: Order,
    qty: i64,
    opened: Seq<char>,
    count: u64,
) -> bool {
    exists|why: Seq<char>| line == #[trigger] alarm_text(o, qty, why, opened, count)
}

/// An alarm is of what was handed over to be healed, for as many contracts, and
/// with the count of naked legs as it then stands; and what a venue fills
/// above what was ordered alarms for what is above.
pub proof fn law_an_alarm_is_of_what_is_naked(
    pre: Live,
    wait: Wait,
    event: Event,
    post: Live,
    g: Gauges,
    h: Gauges,
    by: Around,
    step: Step,
)
    requires
        waits(pre, wait),
        moved(pre, wait, event, post, g, h, by, step),
    ensures
        step.naked matches Some(line) ==> (post.pending matches Some(p) && alarms(
            line@,
            p.order,
            p.filled,
            by.opened@,
            h.unresolved,
        )),
        step.excess matches Some(line) ==> wait is Reread && ({
            let o = pre.resting->0.order;
            let n = event->n;
            let most = if n is Some && n->0 > wait->Reread_filled {
                n->0 as int
            } else {
                wait->Reread_filled as int
            };
            alarms(line@, o, (most - o.qty) as i64, by.opened@, g.plus_unresolved().unresolved)
        }),
{
    if let Some(line) = step.naked {
        let p = post.pending->0;
        match wait {
            Wait::CloseSent { .. } => {
                assert(line@ == alarm_text(
                    p.order,
                    p.filled,
                    by.why@,
                    by.opened@,
                    h.unresolved,
                ));
            },
            Wait::CloseFill { t, .. } => {
                assert(line@ == alarm_text(
                    p.order,
                    p.filled,
                    left_because(t.poll.after(event->n), by.why@),
                    by.opened@,
                    h.unresolved,
                ));
            },
            _ => {
                let e = close_price(pre.fees, p.order, p.filled, *by.view)->Err_0;
                assert(line@ == alarm_text(
                    p.order,
                    p.filled,
                    e.message(p.order, touch_text(p.order, *by.view)),
                    by.opened@,
                    h.unresolved,
                ));
            },
        }
    }
}

/// An alarm begins with what traded and what did not: so many contracts sold on the
/// Kalshi ticker, where the PM-US market did not close; or bought back on the PM-US
/// market, where the Kalshi ticker did not sell.
pub proof fn law_an_alarm_begins_with_what_traded(
    o: Order,
    filled: i64,
    why: Seq<char>,
    opened: Seq<char>,
    count: u64,
)
    ensures
        ({
            let n = "[maker-exit] ### NAKED AFTER EXIT ### "@ + signed_numeral(filled as int)
                + "x "@;
            let front = match o.shape {
                Shape::RestKalshi => n + o.market@ + " SOLD on Kalshi and the PM-US close on "@
                    + o.pm_market@,
                Shape::RestPmUs => n + o.pm_market@
                    + " BOUGHT BACK on PM-US and the Kalshi sell on "@ + o.market@,
            };
            let text = alarm_text(o, filled, why, opened, count);
            front.len() <= text.len() && text.take(front.len() as int) == front
        }),
{
    let n = "[maker-exit] ### NAKED AFTER EXIT ### "@ + signed_numeral(filled as int) + "x "@;
    let front = match o.shape {
        Shape::RestKalshi => n + o.market@ + " SOLD on Kalshi and the PM-US close on "@
            + o.pm_market@,
        Shape::RestPmUs => n + o.pm_market@ + " BOUGHT BACK on PM-US and the Kalshi sell on "@
            + o.market@,
    };
    let text = alarm_text(o, filled, why, opened, count);
    assert(text.take(front.len() as int) =~= front);
}

/// A close that was accepted is polled for its fill, as often as it may be; one that
/// was not, whatever the reason, is handed over whole.
pub proof fn law_a_close_that_is_not_accepted_is_handed_over(
    pre: Live,
    r: Resting,
    filled: i64,
    limit: String,
    reply: PlaceReply,
    post: Live,
    g: Gauges,
    h: Gauges,
    by: Around,
    step: Step,
)
    requires
        moved(
            pre,
            Wait::CloseSent { r, filled, limit },
            Event::Sent { reply },
            post,
            g,
            h,
            by,
            step,
        ),
    ensures
        reply is Accepted ==> {
            &&& post == pre && h == g && step.naked is None
            &&& step.go is Ask && step.go->act is Count && step.go->wait is CloseFill
            &&& step.go->wait->CloseFill_r == r && step.go->wait->CloseFill_filled == filled
            &&& step.go->wait->CloseFill_t.id@ == reply->id@
            &&& step.go->wait->CloseFill_t.limit@ == limit@
            &&& step.go->wait->CloseFill_t.left == by.polls
        },
        !(reply is Accepted) ==> {
            &&& step.naked is Some
            &&& h == g.plus_unresolved()
            &&& post.pending matches Some(p) && p.order == r.order && p.filled == filled
                && p.since == r.since && p.attempts == 0
            &&& step.go is Done && step.go->book is None
        },
{
}

/// A retry that was accepted is polled for its fill; one that was not leaves the
/// close as it was, to be tried again.
pub proof fn law_a_retry_that_is_not_accepted_changes_nothing(
    pre: Live,
    owed: i64,
    limit: String,
    reply: PlaceReply,
    post: Live,
    g: Gauges,
    h: Gauges,
    by: Around,
    step: Step,
)
    requires
        moved(pre, Wait::HealSent { owed, limit }, Event::Sent { reply }, post, g, h, by, step),
    ensures
        post == pre && h == g,
        reply is Accepted ==> {
            &&& step.go is Ask && step.go->act is Count && step.go->wait is HealFill
            &&& step.go->wait->HealFill_owed == owed
            &&& step.go->wait->HealFill_t.id@ == reply->id@
            &&& step.go->wait->HealFill_t.limit@ == limit@
            &&& step.go->wait->HealFill_t.left == by.polls
        },
        !(reply is Accepted) ==> step.go is Done && step.go->book is None,
{
}

/// A first leg that was sent to cross is polled for its fill where it was accepted,
/// and counts as placed; where it was not, nothing rests and nothing is owed.
pub proof fn law_a_cross_that_is_not_accepted_leaves_nothing(
    pre: Live,
    order: Order,
    client: String,
    reply: PlaceReply,
    post: Live,
    g: Gauges,
    h: Gauges,
    by: Around,
    step: Step,
)
    requires
        moved(
            pre,
            Wait::CrossSent { order, client },
            Event::Sent { reply },
            post,
            g,
            h,
            by,
            step,
        ),
    ensures
        post == pre,
        reply is Accepted ==> {
            &&& h == g.plus_placed()
            &&& step.go is Ask && step.go->act is Count && step.go->wait is CrossFill
            &&& step.go->wait->CrossFill_order == order
            &&& step.go->wait->CrossFill_t.id@ == reply->id@
            &&& step.go->wait->CrossFill_t.left == by.polls
        },
        !(reply is Accepted) ==> h == g && step.go is Done && step.go->book is None,
{
}

/// The exit that rests is looked after as it stands: one that is kept or cannot be
/// read changes nothing; one that vanished is traced; one that filled is cancelled
/// first, in its slot; and one that no longer pays leaves the slot and is cancelled.
pub proof fn law_a_resting_exit_is_acted_on_as_it_stands(
    pre: Live,
    read: FillRead,
    post: Live,
    g: Gauges,
    h: Gauges,
    by: Around,
    step: Step,
)
    requires
        waits(pre, Wait::Fill),
        moved(pre, Wait::Fill, Event::Fill { read }, post, g, h, by, step),
    ensures
        h == g && step.naked is None,
        ({
            let at = manage_step(pre, read, *by.view, by.now);
            &&& at is Keep || at is Hold ==> post == pre && step.go is Done && step.go->book is None
            &&& at is Vanished ==> post == pre && step.go is Ask && step.go->wait is Vanish
                && step.go->act is ReadNet
            &&& at is Cancel ==> post == pre && step.go is Ask && step.go->act is Cancel
                && step.go->wait is Cancel && step.go->wait->Cancel_filled == at->filled
            &&& at is Pull ==> post == (Live { resting: None, ..pre }) && step.go is Ask
                && step.go->act is Cancel && step.go->wait is Pulled
                && step.go->wait->Pulled_r == pre.resting->0
        }),
{
}

} // verus!
