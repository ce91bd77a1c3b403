//! One pass over the exit slot: from what a venue or the ledger answered to the
//! next thing to ask of it, until the pass is over.
//!
//! A pass heals a close that failed, looks after the exit that rests, rests a new
//! one, or crosses it. Whichever it is, a leg that filled is closed the same way.
use crate::assoc::lookup;
use crate::board::EngineView;
use crate::closing::{close_price, on_wire};
use crate::exit::{
    attempts_after, cancel_settle, clamp_fill, close_leg, close_prices, close_settle, closes_exit,
    cross_reply, cross_settle, heal, heal_plan, heal_settle, left_because, manage, manage_step,
    opens_exit, park, parked_close, place_request, place_settle, placing_keeps, prices_booked, pull,
    resolve_vanished, settled_fill, to_book, touch_text, vanished, Booked, CloseDone, CloseStep,
    Crossed, FillRead, HealPlan, HealStep, ManageStep, NetRead, PlaceReply, Poll, Vanished,
};
use crate::fills::{booked_at, filled_price_or_limit, OrderFill};
use crate::gauges::Gauges;
use crate::live::{Live, Park, PendingClose, Resting};
use crate::money::{qty_ok, QTY_MAX};
use crate::order::Order;
use crate::record::alarm_text;
use crate::text::with_name;
use crate::venue::{sells_yes, Direction, PlaceRequest};
use vstd::prelude::*;

verus! {

/// An order that takes at once and is polled for its fill.
#[derive(Debug)]
pub struct Taking {
    /// The venue's id.
    pub id: String,
    pub limit: String,
    pub poll: Poll,
    /// How many more times to ask.
    pub left: u32,
}

/// What a pass waits for.
#[derive(Debug)]
pub enum Wait {
    /// How much of the resting exit filled.
    Fill,
    /// What is held on the market of one that vanished.
    Vanish,
    /// The cancellation of one that filled so many.
    Cancel { filled: i64 },
    /// How much of it filled by then.
    Reread { filled: i64 },
    /// The cancellation of one that was taken out of the slot.
    Pulled { r: Resting },
    /// What came of sending the close of so many.
    CloseSent { r: Resting, filled: i64, limit: String },
    /// How much of the close filled.
    CloseFill { r: Resting, filled: i64, t: Taking },
    /// What both legs filled at.
    ClosePrices { r: Resting, booked: i64, limit: String },
    /// What is held on the open leg of a close that failed.
    Heal,
    /// What came of sending a retry for what is owed.
    HealSent { owed: i64, limit: String },
    HealFill { owed: i64, t: Taking },
    /// What the retry filled at.
    HealPrice { p: PendingClose, limit: String },
    /// What came of resting an exit.
    Placed { order: Order, client: String },
    /// What came of sending the first leg of one that crosses.
    CrossSent { order: Order, client: String },
    CrossFill { order: Order, client: String, t: Taking },
}

/// What came of an action.
#[derive(Debug)]
pub enum Event {
    Fill { read: FillRead },
    /// What the ledger's open lots come to on a market, and what its venue says
    /// is held there.
    Net { expected: Option<i64>, net: NetRead },
    Cancelled { done: bool },
    /// One count, or none where it could not be read.
    Count { n: Option<i64> },
    Sent { reply: PlaceReply },
    Priced { rest: Option<OrderFill>, close: Option<OrderFill> },
}

/// What to do.
#[derive(Debug)]
pub enum Act {
    /// Ask how much of the resting exit filled.
    ReadFill,
    /// Ask what is held, and what the ledger expects.
    ReadNet,
    /// Cancel what rests, or what was taken out of the slot.
    Cancel,
    Send { req: PlaceRequest },
    /// Ask how much of the order just sent filled.
    Count,
    /// Ask what the legs filled at.
    ReadPrices,
}

/// A close that is over, to be written into the ledger.
#[derive(Debug)]
pub struct ToBook {
    pub order: Order,
    pub rest: String,
    pub close: String,
    pub qty: i64,
    /// Whether the venues' own fills were plausible together.
    pub plausible: bool,
}

/// How a pass goes on.
#[derive(Debug)]
pub enum Go {
    Ask { wait: Wait, act: Act },
    Done { book: Option<ToBook> },
}

/// What a step read into the answer that it took in.
#[derive(Clone, Copy, Debug, PartialEq, Eq, Structural)]
pub enum Found {
    Nothing,
    /// How the resting exit stands.
    Looked { at: ManageStep },
    /// What became of an exit that vanished.
    Traced { to: Vanished },
    /// How a close that failed is healed.
    Healing { by: HealPlan },
}

/// How a pass goes on, what it found, and what it left naked on the way.
#[derive(Debug)]
pub struct Step {
    pub go: Go,
    pub found: Found,
    /// The alarm of a fill above what was ordered.
    pub excess: Option<String>,
    /// The alarm of a leg that was handed over to be healed.
    pub naked: Option<String>,
}

// ------------------------------------------------------------ the transition

/// Whether an event answers what a pass waits for.
pub open spec fn answers(event: Event, wait: Wait) -> bool {
    match wait {
        Wait::Fill => event is Fill,
        Wait::Vanish | Wait::Heal => event is Net,
        Wait::Cancel { .. } | Wait::Pulled { .. } => event is Cancelled,
        Wait::Reread { .. } => event is Count,
        Wait::CloseFill { .. } | Wait::HealFill { .. } | Wait::CrossFill { .. } => {
            &&& event is Count
            &&& event->n matches Some(k) ==> k <= QTY_MAX
        },
        Wait::CloseSent { .. } | Wait::HealSent { .. } | Wait::Placed { .. } | Wait::CrossSent {
            ..
        } => event is Sent,
        Wait::ClosePrices { .. } | Wait::HealPrice { .. } => event is Priced,
    }
}

/// Whether a pass over the slot can be waiting for this.
pub open spec fn waits(live: Live, wait: Wait) -> bool {
    &&& live.wf()
    &&& match wait {
        Wait::Fill | Wait::Vanish => live.resting is Some,
        Wait::Cancel { filled } | Wait::Reread { filled } => live.resting is Some && filled >= 1,
        Wait::Pulled { .. } => true,
        Wait::CloseSent { filled, .. } => qty_ok(filled),
        Wait::CloseFill { filled, t, .. } => qty_ok(filled) && t.poll.got <= QTY_MAX,
        Wait::ClosePrices { booked, .. } => booked >= 1,
        Wait::Heal | Wait::HealSent { .. } => live.pending is Some,
        Wait::HealFill { t, .. } => live.pending is Some && t.poll.got <= QTY_MAX,
        Wait::HealPrice { .. } => true,
        Wait::Placed { order, .. } | Wait::CrossSent { order, .. } => qty_ok(order.qty),
        Wait::CrossFill { order, t, .. } => qty_ok(order.qty) && t.poll.got <= QTY_MAX,
    }
}

/// A step that leaves nothing naked.
pub open spec fn calm(g: Gauges, h: Gauges, step: Step) -> bool {
    h == g && step.excess is None && step.naked is None
}

/// A step that ends the pass with nothing to book.
pub open spec fn ends(step: Step) -> bool {
    step.go == (Go::Done { book: None })
}

/// A leg of an exit filled: the exit is spent, and its other leg is closed at
/// once, or handed over to be healed where the close does not pay.
pub open spec fn closing(
    pre: Live,
    post: Live,
    g: Gauges,
    h: Gauges,
    r: Resting,
    filled: i64,
    view: EngineView,
    client: Seq<char>,
    opened: Seq<char>,
    step: Step,
) -> bool {
    match close_price(pre.fees, r.order, filled, view) {
        Ok(p) => {
            &&& post == (Live { resting: None, ..pre })
            &&& h == g
            &&& step.naked is None
            &&& step.go is Ask
            &&& step.go->act is Send
            &&& closes_exit(step.go->act->req, r.order, on_wire(p), filled as int, client)
            &&& step.go->wait is CloseSent
            &&& step.go->wait->CloseSent_r == r
            &&& step.go->wait->CloseSent_filled == filled
            &&& step.go->wait->CloseSent_limit@ == on_wire(p)
        },
        Err(e) => {
            &&& parked_close(Live { resting: None, ..pre }, post, r.order, filled, r.since)
            &&& h == g.plus_unresolved()
            &&& step.naked matches Some(line) && line@ == alarm_text(
                r.order,
                filled,
                e.message(r.order, touch_text(r.order, view)),
                opened,
                g.plus_unresolved().unresolved,
            )
            &&& ends(step)
        },
    }
}

/// What a read of positions says is held, with a missing row as none.
pub open spec fn net_of(net: NetRead) -> Option<i64> {
    match net {
        NetRead::Unreadable => None,
        NetRead::NoRow => Some(0),
        NetRead::Row { net } => Some(net),
    }
}

/// Whether an order that is polled is asked about once more.
pub open spec fn polls_on(t: Taking, n: Option<i64>) -> bool {
    t.left > 0 && !(n matches Some(k) && k >= 1)
}

/// An order that was asked about once.
pub open spec fn polled(t: Taking, u: Taking, n: Option<i64>) -> bool {
    &&& u.id == t.id
    &&& u.limit == t.limit
    &&& u.poll == t.poll.after(n)
    &&& u.left == t.left - 1
}

/// An order that was just accepted.
pub open spec fn accepted(t: Taking, id: Seq<char>, limit: Seq<char>, polls: u32) -> bool {
    &&& t.id@ == id
    &&& t.limit@ == limit
    &&& t.poll == (Poll { got: 0, unreadable: false })
    &&& t.left == polls
}

/// What follows where the resting exit is looked after.
pub open spec fn looked_after(
    pre: Live,
    read: FillRead,
    post: Live,
    g: Gauges,
    h: Gauges,
    view: EngineView,
    now: u64,
    step: Step,
) -> bool {
    &&& calm(g, h, step)
    &&& step.found == (Found::Looked { at: manage_step(pre, read, view, now) })
    &&& match manage_step(pre, read, view, now) {
        ManageStep::Nothing | ManageStep::Hold | ManageStep::Keep => post == pre && ends(step),
        ManageStep::Vanished => post == pre && step.go == (Go::Ask {
            wait: Wait::Vanish,
            act: Act::ReadNet,
        }),
        ManageStep::Cancel { filled } => post == pre && step.go == (Go::Ask {
            wait: Wait::Cancel { filled },
            act: Act::Cancel,
        }),
        ManageStep::Pull { .. } => {
            &&& post == (Live { resting: None, ..pre })
            &&& step.go == (Go::Ask {
                wait: Wait::Pulled { r: pre.resting->0 },
                act: Act::Cancel,
            })
        },
    }
}

/// What follows a cancellation.
pub open spec fn cancelled(pre: Live, o: Order, done: bool, post: Live) -> bool {
    &&& post == (Live { unaddressable: post.unaddressable, ..pre })
    &&& done ==> post.unaddressable == pre.unaddressable
    &&& !done ==> with_name(pre.unaddressable@, o.rests_on()@, post.unaddressable@)
}

/// The larger of two counts, or the first where the second could not be read.
pub open spec fn larger(filled: i64, reread: Option<i64>) -> i64 {
    match reread {
        Some(n) => if n > filled {
            n
        } else {
            filled
        },
        None => filled,
    }
}

/// What follows the second count of an exit that filled: it is closed for no
/// more than was ordered, and an excess alarms.
pub open spec fn recounted(
    pre: Live,
    filled: i64,
    n: Option<i64>,
    post: Live,
    g: Gauges,
    h: Gauges,
    view: EngineView,
    client: Seq<char>,
    opened: Seq<char>,
    step: Step,
) -> bool {
    let r = pre.resting->0;
    let settled = larger(filled, n);
    if settled <= r.order.qty {
        &&& step.excess is None
        &&& closing(pre, post, g, h, r, settled, view, client, opened, step)
    } else {
        &&& step.excess matches Some(line) && line@ == alarm_text(
            r.order,
            (settled - r.order.qty) as i64,
            "the venue reports MORE filled than the exit ordered"@,
            opened,
            g.plus_unresolved().unresolved,
        )
        &&& closing(
            pre,
            post,
            g.plus_unresolved(),
            h,
            r,
            r.order.qty,
            view,
            client,
            opened,
            step,
        )
    }
}

/// What follows once a close was polled to its end.
pub open spec fn close_counted(
    pre: Live,
    r: Resting,
    filled: i64,
    t: Taking,
    poll: Poll,
    post: Live,
    g: Gauges,
    h: Gauges,
    unread: Seq<char>,
    opened: Seq<char>,
    step: Step,
) -> bool {
    let booked = to_book(filled, poll);
    &&& step.excess is None
    &&& if booked == filled {
        post == pre && h == g && step.naked is None
    } else {
        &&& parked_close(pre, post, r.order, (filled - booked) as i64, r.since)
        &&& h == g.plus_unresolved()
        &&& step.naked matches Some(line) && line@ == alarm_text(
            r.order,
            (filled - booked) as i64,
            left_because(poll, unread),
            opened,
            g.plus_unresolved().unresolved,
        )
    }
    &&& if booked == 0 {
        ends(step)
    } else {
        step.go == (Go::Ask {
            wait: Wait::ClosePrices { r, booked: booked as i64, limit: t.limit },
            act: Act::ReadPrices,
        })
    }
}

/// What follows where a close that failed is tried once more.
pub open spec fn healing(
    pre: Live,
    expected: Option<i64>,
    net: NetRead,
    post: Live,
    g: Gauges,
    h: Gauges,
    view: EngineView,
    client: Seq<char>,
    step: Step,
) -> bool {
    let p = pre.pending->0;
    let tried = PendingClose { attempts: attempts_after(p), ..p };
    let plan = heal_plan(
        pre.fees,
        p.order,
        p.filled,
        attempts_after(p),
        net_of(net),
        expected,
        view,
    );
    &&& step.excess is None
    &&& step.naked is None
    &&& step.found == (Found::Healing { by: plan })
    &&& if plan is Settled {
        &&& post == (Live { pending: None, ..pre })
        &&& h == g.plus_healed()
        &&& step.go is Done
        &&& step.go->book matches Some(b) && b.order == p.order && b.rest@ == p.order.sent_at()@
            && b.close@ == p.order.sent_at()@ && b.qty == p.filled && b.plausible
    } else {
        &&& post == (Live { pending: Some(tried), ..pre })
        &&& h == g
        &&& match plan {
            HealPlan::Send { owed, price, .. } => {
                &&& step.go is Ask
                &&& step.go->act is Send
                &&& closes_exit(step.go->act->req, p.order, on_wire(price), owed as int, client)
                &&& step.go->wait is HealSent
                &&& step.go->wait->HealSent_owed == owed
                &&& step.go->wait->HealSent_limit@ == on_wire(price)
            },
            _ => ends(step),
        }
    }
}

/// What follows once a retry was polled to its end.
pub open spec fn heal_counted(
    pre: Live,
    owed: i64,
    limit: String,
    got: i64,
    post: Live,
    g: Gauges,
    h: Gauges,
    step: Step,
) -> bool {
    &&& step.excess is None
    &&& step.naked is None
    &&& if got >= owed {
        &&& post == (Live { pending: None, ..pre })
        &&& h == g.plus_healed()
        &&& step.go == (Go::Ask {
            wait: Wait::HealPrice { p: pre.pending->0, limit },
            act: Act::ReadPrices,
        })
    } else {
        post == pre && h == g && ends(step)
    }
}

/// What a step looks at besides the slot.
pub struct Around<'a> {
    pub view: &'a EngineView,
    /// A fresh id for an order that the step may send.
    pub client: &'a str,
    /// When the lot was opened, as an alarm says it.
    pub opened: &'a str,
    /// Why the order just sent was refused, or cannot be read.
    pub why: &'a str,
    /// How many more times to ask an order that takes at once for its fill.
    pub polls: u32,
    pub now: u64,
    /// For how long to leave a market alone that its venue has halted.
    pub park_ns: u64,
}

/// What follows where an exit was sent to rest.
pub open spec fn placed(
    pre: Live,
    order: Order,
    client: Seq<char>,
    reply: PlaceReply,
    post: Live,
    g: Gauges,
    h: Gauges,
    now: u64,
    park_ns: u64,
) -> bool {
    &&& placing_keeps(pre, post)
    &&& match reply {
        PlaceReply::Accepted { id } => {
            &&& h == g.plus_placed()
            &&& post.resting matches Some(r) && r.order == order && r.venue_order_id@ == id@
                && r.client_order_id@ == client && r.since == now
            &&& post.handover_age == 0
            &&& post.unaddressable == pre.unaddressable
            &&& post.parked == pre.parked
        },
        PlaceReply::Halted => {
            &&& h == g.plus_refused()
            &&& post.resting == pre.resting
            &&& post.handover_age == pre.handover_age
            &&& post.unaddressable == pre.unaddressable
            &&& lookup(post.parked@, order.market@) == Some(
                Park {
                    until: if now + park_ns <= u64::MAX {
                        (now + park_ns) as u64
                    } else {
                        u64::MAX
                    },
                    strikes: pre.strikes_after(order.market@),
                },
            )
            &&& forall|k: Seq<char>|
                k != order.market@ ==> #[trigger] lookup(post.parked@, k) == lookup(pre.parked@, k)
        },
        PlaceReply::Refused => h == g.plus_refused() && post == pre,
        PlaceReply::Lost => {
            &&& h == g.plus_unresolved()
            &&& post.resting == pre.resting
            &&& post.handover_age == pre.handover_age
            &&& post.parked == pre.parked
            &&& with_name(pre.unaddressable@, order.market@, post.unaddressable@)
        },
    }
}

/// What follows an event.
pub open spec fn moved(
    pre: Live,
    wait: Wait,
    event: Event,
    post: Live,
    g: Gauges,
    h: Gauges,
    by: Around,
    step: Step,
) -> bool {
    &&& !(wait is Fill || wait is Vanish || wait is Heal) ==> step.found == Found::Nothing
    &&& match wait {
        Wait::Fill => looked_after(pre, event->read, post, g, h, *by.view, by.now, step),
        Wait::Vanish => {
            &&& step.excess is None
            &&& step.found == (Found::Traced {
                to: vanished(pre.resting->0.order, event->expected, event->net),
            })
            &&& match vanished(pre.resting->0.order, event->expected, event->net) {
                Vanished::Traded { qty } => closing(
                    pre,
                    post,
                    g,
                    h,
                    pre.resting->0,
                    qty,
                    *by.view,
                    by.client@,
                    by.opened@,
                    step,
                ),
                Vanished::TradedNothing => {
                    &&& post == (Live { resting: None, ..pre })
                    &&& calm(g, h, step)
                    &&& ends(step)
                },
                _ => post == pre && calm(g, h, step) && ends(step),
            }
        },
        Wait::Cancel { filled } => {
            &&& cancelled(pre, pre.resting->0.order, event->Cancelled_done, post)
            &&& calm(g, h, step)
            &&& step.go == (Go::Ask { wait: Wait::Reread { filled }, act: Act::ReadFill })
        },
        Wait::Reread { filled } => recounted(
            pre,
            filled,
            event->n,
            post,
            g,
            h,
            *by.view,
            by.client@,
            by.opened@,
            step,
        ),
        Wait::Pulled { r } => {
            &&& cancelled(pre, r.order, event->Cancelled_done, post)
            &&& calm(g, h, step)
            &&& ends(step)
        },
        Wait::CloseSent { r, filled, limit } => {
            &&& step.excess is None
            &&& match event->reply {
                PlaceReply::Accepted { id } => {
                    &&& post == pre
                    &&& calm(g, h, step)
                    &&& step.go is Ask
                    &&& step.go->act is Count
                    &&& step.go->wait is CloseFill
                    &&& step.go->wait->CloseFill_r == r
                    &&& step.go->wait->CloseFill_filled == filled
                    &&& accepted(step.go->wait->CloseFill_t, id@, limit@, by.polls)
                },
                _ => {
                    &&& parked_close(pre, post, r.order, filled, r.since)
                    &&& h == g.plus_unresolved()
                    &&& step.naked matches Some(line) && line@ == alarm_text(
                        r.order,
                        filled,
                        by.why@,
                        by.opened@,
                        g.plus_unresolved().unresolved,
                    )
                    &&& ends(step)
                },
            }
        },
        Wait::CloseFill { r, filled, t } => if polls_on(t, event->n) {
            &&& post == pre
            &&& calm(g, h, step)
            &&& step.go is Ask
            &&& step.go->act is Count
            &&& step.go->wait is CloseFill
            &&& step.go->wait->CloseFill_r == r
            &&& step.go->wait->CloseFill_filled == filled
            &&& polled(t, step.go->wait->CloseFill_t, event->n)
        } else {
            close_counted(
                pre,
                r,
                filled,
                t,
                t.poll.after(event->n),
                post,
                g,
                h,
                by.why@,
                by.opened@,
                step,
            )
        },
        Wait::ClosePrices { r, booked, limit } => {
            &&& post == pre
            &&& calm(g, h, step)
            &&& step.go is Done
            &&& step.go->book matches Some(b) && b.order == r.order && b.qty == booked && (
            b.rest@, b.close@, b.plausible) == prices_booked(
                r.order,
                event->rest,
                event->close,
                limit@,
            )
        },
        Wait::Heal => healing(
            pre,
            event->expected,
            event->net,
            post,
            g,
            h,
            *by.view,
            by.client@,
            step,
        ),
        Wait::HealSent { owed, limit } => {
            &&& post == pre
            &&& calm(g, h, step)
            &&& match event->reply {
                PlaceReply::Accepted { id } => {
                    &&& step.go is Ask
                    &&& step.go->act is Count
                    &&& step.go->wait is HealFill
                    &&& step.go->wait->HealFill_owed == owed
                    &&& accepted(step.go->wait->HealFill_t, id@, limit@, by.polls)
                },
                _ => ends(step),
            }
        },
        Wait::HealFill { owed, t } => if polls_on(t, event->n) {
            &&& post == pre
            &&& calm(g, h, step)
            &&& step.go is Ask
            &&& step.go->act is Count
            &&& step.go->wait is HealFill
            &&& step.go->wait->HealFill_owed == owed
            &&& polled(t, step.go->wait->HealFill_t, event->n)
        } else {
            heal_counted(pre, owed, t.limit, t.poll.after(event->n).got, post, g, h, step)
        },
        Wait::HealPrice { p, limit } => {
            &&& post == pre
            &&& calm(g, h, step)
            &&& step.go is Done
            &&& step.go->book matches Some(b) && b.order == p.order && b.qty == p.filled && b.rest@
                == p.order.sent_at()@ && b.close@ == booked_at(
                event->close,
                limit@,
                Direction::Standard.sells_at(p.order.shape.closes_at()),
            ) && b.plausible
        },
        Wait::Placed { order, client } => {
            &&& placed(pre, order, client@, event->reply, post, g, h, by.now, by.park_ns)
            &&& step.excess is None
            &&& step.naked is None
            &&& ends(step)
        },
        Wait::CrossSent { order, client } => {
            &&& post == pre
            &&& step.excess is None
            &&& step.naked is None
            &&& match event->reply {
                PlaceReply::Accepted { id } => {
                    &&& h == g.plus_placed()
                    &&& step.go is Ask
                    &&& step.go->act is Count
                    &&& step.go->wait is CrossFill
                    &&& step.go->wait->CrossFill_order == order
                    &&& step.go->wait->CrossFill_client == client
                    &&& accepted(
                        step.go->wait->CrossFill_t,
                        id@,
                        order.sent_at()@,
                        by.polls,
                    )
                },
                _ => h == g && ends(step),
            }
        },
        Wait::CrossFill { order, client, t } => {
            let poll = t.poll.after(event->n);
            &&& step.excess is None
            &&& if polls_on(t, event->n) {
                &&& post == pre
                &&& calm(g, h, step)
                &&& step.go is Ask
                &&& step.go->act is Count
                &&& step.go->wait is CrossFill
                &&& step.go->wait->CrossFill_order == order
                &&& step.go->wait->CrossFill_client == client
                &&& polled(t, step.go->wait->CrossFill_t, event->n)
            } else if poll.unreadable {
                post == pre && h == g.plus_unresolved() && step.naked is None && ends(step)
            } else if poll.got < 1 {
                post == pre && calm(g, h, step) && ends(step)
            } else {
                closing(
                    pre,
                    post,
                    g,
                    h,
                    Resting {
                        order,
                        venue_order_id: t.id,
                        client_order_id: client,
                        since: by.now,
                    },
                    poll.got,
                    *by.view,
                    by.client@,
                    by.opened@,
                    step,
                )
            }
        },
    }
}

// ------------------------------------------------------------------ the steps

fn quiet(go: Go) -> (r: Step)
    ensures
        r == (Step { go, found: Found::Nothing, excess: None, naked: None }),
{
    Step { go, found: Found::Nothing, excess: None, naked: None }
}

fn over() -> (r: Step)
    ensures
        r == (Step {
            go: Go::Done { book: None },
            found: Found::Nothing,
            excess: None,
            naked: None,
        }),
{
    quiet(Go::Done { book: None })
}

/// Closes the other leg of an exit that filled.
fn close(
    live: &mut Live,
    gauges: &mut Gauges,
    r: Resting,
    filled: i64,
    by: &Around,
) -> (step: Step)
    requires
        old(live).wf(),
        qty_ok(filled),
    ensures
        final(live).wf(),
        closing(
            *old(live),
            *final(live),
            *old(gauges),
            *final(gauges),
            r,
            filled,
            *by.view,
            by.client@,
            by.opened@,
            step,
        ),
        step.excess is None,
        step.found == Found::Nothing,
        step.go is Ask ==> waits(*final(live), step.go->wait),
{
    match close_leg(live, gauges, &r, filled, by.view, by.client, by.opened) {
        CloseStep::Parked { line } => Step {
            go: Go::Done { book: None },
            found: Found::Nothing,
            excess: None,
            naked: Some(line),
        },
        CloseStep::Send { req } => {
            let limit: String = req.price.clone();
            quiet(Go::Ask { wait: Wait::CloseSent { r, filled, limit }, act: Act::Send { req } })
        },
    }
}

/// Looks after the exit that rests.
fn look(live: &mut Live, gauges: &Gauges, read: FillRead, by: &Around) -> (step: Step)
    requires
        waits(*old(live), Wait::Fill),
    ensures
        looked_after(
            *old(live),
            read,
            *final(live),
            *gauges,
            *gauges,
            *by.view,
            by.now,
            step,
        ),
        step.go is Ask ==> waits(*final(live), step.go->wait),
        final(live).wf(),
{
    let at: ManageStep = manage(live, read, by.view, by.now);
    let step: Step = match at {
        ManageStep::Vanished => quiet(Go::Ask { wait: Wait::Vanish, act: Act::ReadNet }),
        ManageStep::Cancel { filled } => quiet(
            Go::Ask { wait: Wait::Cancel { filled }, act: Act::Cancel },
        ),
        ManageStep::Pull { .. } => match pull(live) {
            Some(r) => quiet(Go::Ask { wait: Wait::Pulled { r }, act: Act::Cancel }),
            None => over(),
        },
        _ => over(),
    };
    Step { go: step.go, found: Found::Looked { at }, excess: None, naked: None }
}

/// Finds out what became of an exit that vanished.
fn trace(
    live: &mut Live,
    gauges: &mut Gauges,
    expected: Option<i64>,
    net: NetRead,
    by: &Around,
) -> (step: Step)
    requires
        waits(*old(live), Wait::Vanish),
    ensures
        moved(
            *old(live),
            Wait::Vanish,
            Event::Net { expected, net },
            *final(live),
            *old(gauges),
            *final(gauges),
            *by,
            step,
        ),
        step.go is Ask ==> waits(*final(live), step.go->wait),
        final(live).wf(),
{
    let r: Resting = match &live.resting {
        Some(r) => r.clone(),
        None => {
            return over();
        },
    };
    let to: Vanished = resolve_vanished(live, &r, expected, net);
    let step: Step = match to {
        Vanished::Traded { qty } => close(live, gauges, r, qty, by),
        _ => over(),
    };
    Step { go: step.go, found: Found::Traced { to }, excess: None, naked: step.naked }
}

/// Closes what an exit filled, after its remainder was cancelled.
fn recount(
    live: &mut Live,
    gauges: &mut Gauges,
    filled: i64,
    n: Option<i64>,
    by: &Around,
) -> (step: Step)
    requires
        waits(*old(live), Wait::Reread { filled }),
    ensures
        recounted(
            *old(live),
            filled,
            n,
            *final(live),
            *old(gauges),
            *final(gauges),
            *by.view,
            by.client@,
            by.opened@,
            step,
        ),
        step.found == Found::Nothing,
        step.go is Ask ==> waits(*final(live), step.go->wait),
        final(live).wf(),
{
    let r: Resting = match &live.resting {
        Some(r) => r.clone(),
        None => {
            return over();
        },
    };
    let (qty, excess): (i64, Option<String>) = clamp_fill(
        gauges,
        &r.order,
        settled_fill(filled, n),
        by.opened,
    );
    let step: Step = close(live, gauges, r, qty, by);
    Step { go: step.go, found: Found::Nothing, excess, naked: step.naked }
}

/// Looks after the exit that rests and what became of it.
fn next_of_exit(
    live: &mut Live,
    gauges: &mut Gauges,
    wait: Wait,
    event: Event,
    by: &Around,
) -> (step: Step)
    requires
        waits(*old(live), wait),
        answers(event, wait),
        wait is Fill || wait is Vanish || wait is Cancel || wait is Reread || wait is Pulled,
    ensures
        moved(
            *old(live),
            wait,
            event,
            *final(live),
            *old(gauges),
            *final(gauges),
            *by,
            step,
        ),
        step.go is Ask ==> waits(*final(live), step.go->wait),
        final(live).wf(),
{
    match (wait, event) {
        (Wait::Fill, Event::Fill { read }) => look(live, gauges, read, by),
        (Wait::Vanish, Event::Net { expected, net }) => trace(live, gauges, expected, net, by),
        (Wait::Cancel { filled }, Event::Cancelled { done }) => {
            match &live.resting {
                Some(r) => {
                    let o: Order = r.order.clone();
                    cancel_settle(live, &o, done);
                },
                None => {},
            }
            quiet(Go::Ask { wait: Wait::Reread { filled }, act: Act::ReadFill })
        },
        (Wait::Reread { filled }, Event::Count { n }) => recount(live, gauges, filled, n, by),
        (Wait::Pulled { r }, Event::Cancelled { done }) => {
            cancel_settle(live, &r.order, done);
            over()
        },
        _ => over(),
    }
}

/// Takes in one more answer about an order that takes at once.
fn ask_again(t: Taking, n: Option<i64>) -> (r: (bool, Taking))
    requires
        t.poll.got <= QTY_MAX,
        n matches Some(k) ==> k <= QTY_MAX,
    ensures
        r.0 == polls_on(t, n),
        r.0 ==> polled(t, r.1, n),
        !r.0 ==> r.1 == (Taking { poll: t.poll.after(n), ..t }),
        r.1.poll.got <= QTY_MAX,
{
    let mut u: Taking = t;
    let filled: bool = u.poll.note(n);
    if u.left > 0 && !filled {
        u.left = u.left - 1;
        return (true, u);
    }
    (false, u)
}

fn taking(id: String, limit: String, polls: u32) -> (r: Taking)
    ensures
        r == (Taking { id, limit, poll: Poll { got: 0, unreadable: false }, left: polls }),
{
    Taking { id, limit, poll: Poll::new(), left: polls }
}

/// Looks after a close.
fn next_of_close(
    live: &mut Live,
    gauges: &mut Gauges,
    wait: Wait,
    event: Event,
    by: &Around,
) -> (step: Step)
    requires
        waits(*old(live), wait),
        answers(event, wait),
        wait is CloseSent || wait is CloseFill || wait is ClosePrices,
    ensures
        moved(
            *old(live),
            wait,
            event,
            *final(live),
            *old(gauges),
            *final(gauges),
            *by,
            step,
        ),
        step.go is Ask ==> waits(*final(live), step.go->wait),
        final(live).wf(),
{
    match (wait, event) {
        (Wait::CloseSent { r, filled, limit }, Event::Sent { reply }) => match reply {
            PlaceReply::Accepted { id } => quiet(
                Go::Ask {
                    wait: Wait::CloseFill { r, filled, t: taking(id, limit, by.polls) },
                    act: Act::Count,
                },
            ),
            _ => {
                let line: String = park(
                    live,
                    gauges,
                    &r.order,
                    filled,
                    r.since,
                    by.why,
                    by.opened,
                );
                Step {
                    go: Go::Done { book: None },
                    found: Found::Nothing,
                    excess: None,
                    naked: Some(line),
                }
            },
        },
        (Wait::CloseFill { r, filled, t }, Event::Count { n }) => {
            let (again, u): (bool, Taking) = ask_again(t, n);
            if again {
                return quiet(
                    Go::Ask { wait: Wait::CloseFill { r, filled, t: u }, act: Act::Count },
                );
            }
            let done: CloseDone = close_settle(
                live,
                gauges,
                &r,
                filled,
                &u.poll,
                by.why,
                by.opened,
            );
            let go: Go = if done.booked < 1 {
                Go::Done { book: None }
            } else {
                Go::Ask {
                    wait: Wait::ClosePrices { r, booked: done.booked, limit: u.limit },
                    act: Act::ReadPrices,
                }
            };
            Step { go, found: Found::Nothing, excess: None, naked: done.alarm }
        },
        (Wait::ClosePrices { r, booked, limit }, Event::Priced { rest, close }) => {
            let b: Booked = close_prices(&r.order, &rest, &close, limit.as_str());
            quiet(
                Go::Done {
                    book: Some(
                        ToBook {
                            order: r.order,
                            rest: b.rest,
                            close: b.close,
                            qty: booked,
                            plausible: b.plausible,
                        },
                    ),
                },
            )
        },
        _ => over(),
    }
}

/// Looks after a close that failed.
fn next_of_heal(
    live: &mut Live,
    gauges: &mut Gauges,
    wait: Wait,
    event: Event,
    by: &Around,
) -> (step: Step)
    requires
        waits(*old(live), wait),
        answers(event, wait),
        wait is Heal || wait is HealSent || wait is HealFill || wait is HealPrice,
    ensures
        moved(
            *old(live),
            wait,
            event,
            *final(live),
            *old(gauges),
            *final(gauges),
            *by,
            step,
        ),
        step.go is Ask ==> waits(*final(live), step.go->wait),
        final(live).wf(),
{
    match (wait, event) {
        (Wait::Heal, Event::Net { expected, net }) => {
            let held: Option<i64> = match net {
                NetRead::Unreadable => None,
                NetRead::NoRow => Some(0),
                NetRead::Row { net } => Some(net),
            };
            let tried: HealStep = heal(live, gauges, held, expected, by.view, by.client);
            let by: HealPlan = tried.plan;
            let step: Step = match (by, tried.req, tried.done) {
                (HealPlan::Send { owed, .. }, Some(req), _) => {
                    let limit: String = req.price.clone();
                    quiet(Go::Ask { wait: Wait::HealSent { owed, limit }, act: Act::Send { req } })
                },
                (_, _, Some(p)) => {
                    let rest: String = p.order.rest_limit().to_owned();
                    let close: String = rest.clone();
                    quiet(
                        Go::Done {
                            book: Some(
                                ToBook {
                                    order: p.order,
                                    rest,
                                    close,
                                    qty: p.filled,
                                    plausible: true,
                                },
                            ),
                        },
                    )
                },
                _ => over(),
            };
            Step { go: step.go, found: Found::Healing { by }, excess: None, naked: None }
        },
        (Wait::HealSent { owed, limit }, Event::Sent { reply }) => match reply {
            PlaceReply::Accepted { id } => quiet(
                Go::Ask {
                    wait: Wait::HealFill { owed, t: taking(id, limit, by.polls) },
                    act: Act::Count,
                },
            ),
            _ => over(),
        },
        (Wait::HealFill { owed, t }, Event::Count { n }) => {
            let (again, u): (bool, Taking) = ask_again(t, n);
            if again {
                return quiet(Go::Ask { wait: Wait::HealFill { owed, t: u }, act: Act::Count });
            }
            match heal_settle(live, gauges, owed, u.poll.got) {
                Some(p) => quiet(
                    Go::Ask {
                        wait: Wait::HealPrice { p, limit: u.limit },
                        act: Act::ReadPrices,
                    },
                ),
                None => over(),
            }
        },
        (Wait::HealPrice { p, limit }, Event::Priced { close, .. }) => {
            let rest: String = p.order.rest_limit().to_owned();
            let paid: String = filled_price_or_limit(
                &close,
                limit.as_str(),
                sells_yes(p.order.shape.close_venue()),
            );
            quiet(
                Go::Done {
                    book: Some(
                        ToBook {
                            order: p.order,
                            rest,
                            close: paid,
                            qty: p.filled,
                            plausible: true,
                        },
                    ),
                },
            )
        },
        _ => over(),
    }
}

/// Looks after an exit that is new.
fn next_of_place(
    live: &mut Live,
    gauges: &mut Gauges,
    wait: Wait,
    event: Event,
    by: &Around,
) -> (step: Step)
    requires
        waits(*old(live), wait),
        answers(event, wait),
        wait is Placed || wait is CrossSent || wait is CrossFill,
    ensures
        moved(
            *old(live),
            wait,
            event,
            *final(live),
            *old(gauges),
            *final(gauges),
            *by,
            step,
        ),
        step.go is Ask ==> waits(*final(live), step.go->wait),
        final(live).wf(),
{
    match (wait, event) {
        (Wait::Placed { order, client }, Event::Sent { reply }) => {
            place_settle(live, gauges, order, reply, client.as_str(), by.now, by.park_ns);
            over()
        },
        (Wait::CrossSent { order, client }, Event::Sent { reply }) => match cross_reply(
            gauges,
            reply,
        ) {
            Some(id) => {
                let limit: String = order.rest_limit().to_owned();
                quiet(
                    Go::Ask {
                        wait: Wait::CrossFill { order, client, t: taking(id, limit, by.polls) },
                        act: Act::Count,
                    },
                )
            },
            None => over(),
        },
        (Wait::CrossFill { order, client, t }, Event::Count { n }) => {
            let (again, u): (bool, Taking) = ask_again(t, n);
            if again {
                return quiet(
                    Go::Ask { wait: Wait::CrossFill { order, client, t: u }, act: Act::Count },
                );
            }
            match cross_settle(gauges, &u.poll) {
                Crossed::Filled { qty } => {
                    let r: Resting = Resting {
                        order,
                        venue_order_id: u.id,
                        client_order_id: client,
                        since: by.now,
                    };
                    close(live, gauges, r, qty, by)
                },
                _ => over(),
            }
        },
        _ => over(),
    }
}

/// Takes in what came of the last action of a pass, and says how it goes on.
pub fn next(
    live: &mut Live,
    gauges: &mut Gauges,
    wait: Wait,
    event: Event,
    by: &Around,
) -> (step: Step)
    requires
        waits(*old(live), wait),
        answers(event, wait),
    ensures
        moved(
            *old(live),
            wait,
            event,
            *final(live),
            *old(gauges),
            *final(gauges),
            *by,
            step,
        ),
        step.go is Ask ==> waits(*final(live), step.go->wait),
        final(live).wf(),
{
    match &wait {
        Wait::Fill
        | Wait::Vanish
        | Wait::Cancel { .. }
        | Wait::Reread { .. }
        | Wait::Pulled { .. } => next_of_exit(live, gauges, wait, event, by),
        Wait::CloseSent { .. } | Wait::CloseFill { .. } | Wait::ClosePrices { .. } =>
            next_of_close(live, gauges, wait, event, by),
        Wait::Heal | Wait::HealSent { .. } | Wait::HealFill { .. } | Wait::HealPrice { .. } =>
            next_of_heal(live, gauges, wait, event, by),
        _ => next_of_place(live, gauges, wait, event, by),
    }
}

// ------------------------------------------------------------------ the starts

/// Starts to look after the exit that rests, where one does.
pub fn look_after(live: &Live) -> (r: Go)
    requires
        live.wf(),
    ensures
        r == (if live.resting is Some {
            Go::Ask { wait: Wait::Fill, act: Act::ReadFill }
        } else {
            Go::Done { book: None }
        }),
        r is Ask ==> waits(*live, r->wait),
{
    if live.resting.is_some() {
        Go::Ask { wait: Wait::Fill, act: Act::ReadFill }
    } else {
        Go::Done { book: None }
    }
}

/// Starts to heal the close that failed, where one did.
pub fn mend(live: &Live) -> (r: Go)
    requires
        live.wf(),
    ensures
        r == (if live.pending is Some {
            Go::Ask { wait: Wait::Heal, act: Act::ReadNet }
        } else {
            Go::Done { book: None }
        }),
        r is Ask ==> waits(*live, r->wait),
{
    if live.pending.is_some() {
        Go::Ask { wait: Wait::Heal, act: Act::ReadNet }
    } else {
        Go::Done { book: None }
    }
}

/// Starts to take off the exit that rests, where one does.
pub fn take_off(live: &mut Live) -> (r: Go)
    requires
        old(live).wf(),
    ensures
        *final(live) == (Live { resting: None, ..*old(live) }),
        r == (match old(live).resting {
            Some(r) => Go::Ask { wait: Wait::Pulled { r }, act: Act::Cancel },
            None => Go::Done { book: None },
        }),
        r is Ask ==> waits(*final(live), r->wait),
        final(live).wf(),
{
    match pull(live) {
        Some(r) => Go::Ask { wait: Wait::Pulled { r }, act: Act::Cancel },
        None => Go::Done { book: None },
    }
}

/// Starts to work a new exit: it is sent to rest, or crossed where it says so.
pub fn open_exit(order: Order, client: &str) -> (r: Go)
    requires
        qty_ok(order.qty),
    ensures
        r is Ask,
        r->act is Send,
        opens_exit(r->act->req, order, client@),
        if order.cross is Some {
            &&& r->wait is CrossSent
            &&& r->wait->CrossSent_order == order
            &&& r->wait->CrossSent_client@ == client@
        } else {
            &&& r->wait is Placed
            &&& r->wait->Placed_order == order
            &&& r->wait->Placed_client@ == client@
        },
        forall|live: Live| live.wf() ==> #[trigger] waits(live, r->wait),
{
    let req: PlaceRequest = place_request(&order, client);
    let wait: Wait = if order.cross.is_some() {
        Wait::CrossSent { order, client: client.to_owned() }
    } else {
        Wait::Placed { order, client: client.to_owned() }
    };
    Go::Ask { wait, act: Act::Send { req } }
}

// --------------------------------------------------------------------- laws

/// A leg is closed only after the rest of its order is off the venue: after the
/// second count that follows a cancellation, where the venue no longer has the
/// order, or where the order took at once. A fill alone sends nothing.
pub proof fn law_a_close_follows_the_cancel_and_the_second_count(
    pre: Live,
    wait: Wait,
    event: Event,
    post: Live,
    g: Gauges,
    h: Gauges,
    by: Around,
    step: Step,
)
    requires
        waits(pre, wait),
        moved(pre, wait, event, post, g, h, by, step),
        step.go is Ask,
        step.go->act is Send,
    ensures
        wait is Reread || wait is Vanish || wait is CrossFill || wait is Heal,
        wait is Heal || post.resting is None,
{
}

/// The close that follows a cancellation is for the larger of the two counts,
/// and for no more than was ordered.
pub proof fn law_the_count_after_the_cancel_is_closed(
    pre: Live,
    filled: i64,
    n: Option<i64>,
    post: Live,
    g: Gauges,
    h: Gauges,
    by: Around,
    step: Step,
)
    requires
        waits(pre, Wait::Reread { filled }),
        moved(pre, Wait::Reread { filled }, Event::Count { n }, post, g, h, by, step),
        step.go is Ask,
    ensures
        ({
            let ordered = pre.resting->0.order.qty;
            let settled = larger(filled, n);
            step.go->act is Send && step.go->act->req.qty == (if settled < ordered {
                settled
            } else {
                ordered
            })
        }),
        post.resting is None,
{
}

/// Every contract of a leg that filled is booked or handed over to be healed:
/// none is dropped on the way.
pub proof fn law_every_contract_is_booked_or_handed_over(
    pre: Live,
    r: Resting,
    filled: i64,
    t: Taking,
    n: Option<i64>,
    post: Live,
    g: Gauges,
    h: Gauges,
    by: Around,
    step: Step,
)
    requires
        waits(pre, Wait::CloseFill { r, filled, t }),
        moved(
            pre,
            Wait::CloseFill { r, filled, t },
            Event::Count { n },
            post,
            g,
            h,
            by,
            step,
        ),
        !polls_on(t, n),
    ensures
        ({
            let booked: int = if step.go is Ask {
                step.go->wait->ClosePrices_booked as int
            } else {
                0
            };
            &&& booked == filled ==> post == pre && step.naked is None
            &&& booked < filled ==> {
                &&& post.pending is Some
                &&& post.pending->0.filled + booked == filled
                &&& step.naked is Some
            }
        }),
{
}

/// Nothing that a pass leaves naked goes without an alarm, and the count of
/// naked legs moves with it.
pub proof fn law_a_naked_leg_alarms(
    pre: Live,
    wait: Wait,
    event: Event,
    post: Live,
    g: Gauges,
    h: Gauges,
    by: Around,
    step: Step,
)
    requires
        waits(pre, wait),
        moved(pre, wait, event, post, g, h, by, step),
        !(wait is Heal),
        !(wait is HealFill),
        post.pending != pre.pending,
    ensures
        step.naked is Some,
        post.pending is Some,
        h.unresolved == g.plus_unresolved().unresolved
            || h.unresolved == g.plus_unresolved().plus_unresolved().unresolved,
{
}

/// The place of what a pass waits for.
pub open spec fn place_of(wait: Wait) -> nat {
    match wait {
        Wait::Fill | Wait::Heal | Wait::Placed { .. } | Wait::CrossSent { .. } => 0,
        Wait::Vanish | Wait::Cancel { .. } | Wait::Pulled { .. } | Wait::HealSent { .. } => 1,
        Wait::CrossFill { .. } => 1,
        Wait::Reread { .. } | Wait::HealFill { .. } => 2,
        Wait::CloseSent { .. } | Wait::HealPrice { .. } => 3,
        Wait::CloseFill { .. } => 4,
        Wait::ClosePrices { .. } => 5,
    }
}

/// How often what a pass waits for may still be asked.
pub open spec fn asks_left(wait: Wait) -> nat {
    match wait {
        Wait::CloseFill { t, .. } | Wait::HealFill { t, .. } | Wait::CrossFill { t, .. } =>
            t.left as nat,
        _ => 0,
    }
}

/// A pass comes to an end: each step that goes on goes forward, or asks again of
/// what it may ask again one time less.
pub proof fn law_a_pass_ends(
    pre: Live,
    wait: Wait,
    event: Event,
    post: Live,
    g: Gauges,
    h: Gauges,
    by: Around,
    step: Step,
)
    requires
        waits(pre, wait),
        moved(pre, wait, event, post, g, h, by, step),
        step.go is Ask,
    ensures
        ({
            ||| place_of(wait) < place_of(step.go->wait) <= 5
            ||| place_of(wait) == place_of(step.go->wait) && asks_left(step.go->wait) < asks_left(
                wait,
            )
        }),
{
}

} // verus!
