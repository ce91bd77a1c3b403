//! The steps of the one-slot exit pass: sending an exit, looking after it while
//! it rests, closing its other leg, and finishing a close that failed. Each
//! step takes what a venue or the ledger answered, and says what to do next.
use crate::assoc::lookup;
use crate::board::{elapsed, elapsed_ns, EngineView};
use crate::closing::{
    close_price, close_touch, contracts, find_close_price, find_touch,
    on_wire, pay_refusal, price_close, shortfall, still_owed, still_pays, whole_contracts, CloseRefusal,
    PayRefusal, CONTRACT, HEAL_PROFITABLE_CYCLES,
};
use crate::decimal::{fraction_of, total, Ratio};
use crate::fees::FeeSchedule;
use crate::fills::{booked_at, filled_price_or_limit, plausible, plausible_pair, OrderFill};
use crate::gauges::Gauges;
use crate::live::{Live, Park, PendingClose, Resting};
use crate::money::{px4, qty_ok, Px, CENT};
use crate::pricing::{quantize, quantized};
use crate::ratio::{dollars, less_by};
use crate::order::{by_venue, fills_by_venue, Order};
use crate::record::{alarm_text, alarm_unresolved};
use crate::text::{add_name, with_name};
use crate::venue::{sells_yes, Direction, PlaceRequest, Shape, Side, Tif};
use vstd::prelude::*;

verus! {

/// How old a resting exit must be before an unknown id means that it is gone,
/// in nanoseconds.
pub const VANISHED_MIN_AGE_NS: u64 = 60_000_000_000;

// ---------------------------------------------------------------- requests

/// Whether a request is for these terms.
pub open spec fn requests(
    req: PlaceRequest,
    market: Seq<char>,
    side: Side,
    price: Seq<char>,
    qty: int,
    tif: Tif,
    post_only: bool,
    client: Seq<char>,
) -> bool {
    &&& req.market@ == market
    &&& req.side == side
    &&& req.price@ == price
    &&& req.qty == qty
    &&& req.tif == tif
    &&& req.post_only == post_only
    &&& req.client_order_id@ == client
}

/// The side of the leg that goes first: the YES that is held is sold, the YES
/// that is short is bought.
pub open spec fn first_side(shape: Shape) -> Side {
    match shape {
        Shape::RestKalshi => Side::Ask,
        Shape::RestPmUs => Side::Bid,
    }
}

/// The side of the leg that closes.
pub open spec fn closing_side(shape: Shape) -> Side {
    match shape {
        Shape::RestKalshi => Side::Bid,
        Shape::RestPmUs => Side::Ask,
    }
}

/// Whether a request is the first order of an exit: a post-only order that
/// rests at the limit, or on a cross one that takes at the limit of the cross.
pub open spec fn opens_exit(req: PlaceRequest, o: Order, client: Seq<char>) -> bool {
    requests(
        req,
        o.rests_on()@,
        first_side(o.shape),
        o.sent_at()@,
        o.qty as int,
        if o.cross is Some {
            Tif::Ioc
        } else {
            Tif::Gtc
        },
        o.cross is None,
        client,
    )
}

/// Whether a request closes `qty` contracts of an exit's other leg at once.
pub open spec fn closes_exit(
    req: PlaceRequest,
    o: Order,
    price: Seq<char>,
    qty: int,
    client: Seq<char>,
) -> bool {
    requests(
        req,
        o.closes_on()@,
        closing_side(o.shape),
        price,
        qty,
        Tif::Ioc,
        false,
        client,
    )
}

/// The first order of an exit.
pub fn place_request(o: &Order, client: &str) -> (r: PlaceRequest)
    ensures
        opens_exit(r, *o, client@),
{
    let crossing: bool = o.cross.is_some();
    PlaceRequest {
        market: o.rest_market().to_owned(),
        side: match o.shape {
            Shape::RestKalshi => Side::Ask,
            Shape::RestPmUs => Side::Bid,
        },
        price: o.rest_limit().to_owned(),
        qty: o.qty,
        tif: if crossing {
            Tif::Ioc
        } else {
            Tif::Gtc
        },
        post_only: !crossing,
        client_order_id: client.to_owned(),
    }
}

fn close_request(o: &Order, price: String, qty: i64, client: &str) -> (r: PlaceRequest)
    ensures
        closes_exit(r, *o, price@, qty as int, client@),
{
    PlaceRequest {
        market: o.close_market().to_owned(),
        side: match o.shape {
            Shape::RestKalshi => Side::Bid,
            Shape::RestPmUs => Side::Ask,
        },
        price,
        qty,
        tif: Tif::Ioc,
        post_only: false,
        client_order_id: client.to_owned(),
    }
}

// ----------------------------------------------------------------- placing

/// What came of sending an order.
#[derive(Debug)]
pub enum PlaceReply {
    Accepted { id: String },
    /// The venue has halted the market.
    Halted,
    /// The venue answered, and its answer was no.
    Refused,
    /// The request did not complete, so the order may or may not be there.
    Lost,
}

/// Everything of the state but what placing an order may change.
pub open spec fn placing_keeps(a: Live, b: Live) -> bool {
    &&& a.shadow == b.shadow
    &&& a.take_ok == b.take_ok
    &&& a.ledger_path == b.ledger_path
    &&& a.debounce == b.debounce
    &&& a.pending == b.pending
    &&& a.rotate == b.rotate
    &&& a.served == b.served
    &&& a.fees == b.fees
}

/// Takes in what came of resting an exit. An accepted order holds the slot; a
/// halt parks the candidate's Kalshi ticker for `park_ns`; an order that may be
/// resting under an id that was never learned keeps its market worked for good.
pub fn place_settle(
    live: &mut Live,
    gauges: &mut Gauges,
    order: Order,
    reply: PlaceReply,
    client: &str,
    now: u64,
    park_ns: u64,
)
    requires
        old(live).wf(),
        qty_ok(order.qty),
    ensures
        final(live).wf(),
        placing_keeps(*old(live), *final(live)),
        match reply {
            PlaceReply::Accepted { id } => {
                &&& *final(gauges) == old(gauges).plus_placed()
                &&& final(live).resting matches Some(r) && r.order == order && r.venue_order_id@
                    == id@ && r.client_order_id@ == client@ && r.since == now
                &&& final(live).handover_age == 0
                &&& final(live).unaddressable == old(live).unaddressable
                &&& final(live).parked == old(live).parked
            },
            PlaceReply::Halted => {
                &&& *final(gauges) == old(gauges).plus_refused()
                &&& final(live).resting == old(live).resting
                &&& final(live).handover_age == old(live).handover_age
                &&& final(live).unaddressable == old(live).unaddressable
                &&& lookup(final(live).parked@, order.market@) == Some(
                    Park {
                        until: if now + park_ns <= u64::MAX {
                            (now + park_ns) as u64
                        } else {
                            u64::MAX
                        },
                        strikes: old(live).strikes_after(order.market@),
                    },
                )
                &&& forall|k: Seq<char>|
                    k != order.market@ ==> #[trigger] lookup(final(live).parked@, k) == lookup(
                        old(live).parked@,
                        k,
                    )
            },
            PlaceReply::Refused => {
                &&& *final(gauges) == old(gauges).plus_refused()
                &&& *final(live) == *old(live)
            },
            PlaceReply::Lost => {
                &&& *final(gauges) == old(gauges).plus_unresolved()
                &&& final(live).resting == old(live).resting
                &&& final(live).handover_age == old(live).handover_age
                &&& final(live).parked == old(live).parked
                &&& with_name(
                    old(live).unaddressable@,
                    order.market@,
                    final(live).unaddressable@,
                )
            },
        },
{
    match reply {
        PlaceReply::Accepted { id } => {
            gauges.note_placed();
            live.handover_age = 0;
            live.resting = Some(
                Resting {
                    order,
                    venue_order_id: id,
                    client_order_id: client.to_owned(),
                    since: now,
                },
            );
        },
        PlaceReply::Halted => {
            live.park(order.market.as_str(), now, park_ns);
            let _ = crate::gauges::refuse(gauges, ());
        },
        PlaceReply::Refused => {
            let _ = crate::gauges::refuse(gauges, ());
        },
        PlaceReply::Lost => {
            gauges.note_unresolved();
            add_name(&mut live.unaddressable, order.market.as_str());
        },
    }
}

// --------------------------------------------------------- reading a fill

/// What polling an order that takes at once has shown so far.
#[derive(Clone, Copy, Debug, PartialEq, Eq, Structural)]
pub struct Poll {
    /// The last count that could be read.
    pub got: i64,
    /// Whether the last read failed.
    pub unreadable: bool,
}

impl Poll {
    pub fn new() -> (r: Poll)
        ensures
            r == (Poll { got: 0, unreadable: false }),
    {
        Poll { got: 0, unreadable: false }
    }

    /// What one more answer makes of it; `None` is a read that failed.
    pub open spec fn after(self, answer: Option<i64>) -> Poll {
        match answer {
            Some(n) => Poll { got: n, unreadable: false },
            None => Poll { got: self.got, unreadable: true },
        }
    }

    /// Takes one answer in, and says whether polling is over: something has
    /// filled.
    pub fn note(&mut self, answer: Option<i64>) -> (r: bool)
        ensures
            *final(self) == old(self).after(answer),
            r == (answer matches Some(n) && n >= 1),
    {
        match answer {
            Some(n) => {
                self.got = n;
                self.unreadable = false;
                n >= 1
            },
            None => {
                self.unreadable = true;
                false
            },
        }
    }
}

// ---------------------------------------------------------------- crossing

/// What came of crossing the first leg.
#[derive(Clone, Copy, Debug, PartialEq, Eq, Structural)]
pub enum Crossed {
    /// It was accepted and its fill cannot be read; the other leg is not closed.
    Unreadable,
    /// It did not fill; nothing rests and nothing is owed.
    Unfilled,
    /// Close this many of the other leg.
    Filled { qty: i64 },
}

/// Takes in what came of sending a first leg that crosses. The id of one that
/// was accepted comes back; anything else leaves the slot free and nothing
/// resting.
pub fn cross_reply(gauges: &mut Gauges, reply: PlaceReply) -> (r: Option<String>)
    ensures
        match reply {
            PlaceReply::Accepted { id } => r matches Some(t) && t@ == id@ && *final(gauges)
                == old(gauges).plus_placed(),
            _ => r is None && *final(gauges) == *old(gauges),
        },
{
    match reply {
        PlaceReply::Accepted { id } => {
            gauges.note_placed();
            Some(id)
        },
        _ => None,
    }
}

/// Takes in the fill of a first leg that was crossed, which counted as placed
/// when it was accepted.
pub fn cross_settle(gauges: &mut Gauges, poll: &Poll) -> (r: Crossed)
    ensures
        r == (if poll.unreadable {
            Crossed::Unreadable
        } else if poll.got < 1 {
            Crossed::Unfilled
        } else {
            Crossed::Filled { qty: poll.got }
        }),
        *final(gauges) == (if poll.unreadable {
            old(gauges).plus_unresolved()
        } else {
            *old(gauges)
        }),
{
    if poll.unreadable {
        gauges.note_unresolved();
        return Crossed::Unreadable;
    }
    if poll.got < 1 {
        return Crossed::Unfilled;
    }
    Crossed::Filled { qty: poll.got }
}

// ----------------------------------------------------------------- closing

/// The state after a leg was left naked and handed over to be healed.
pub open spec fn parked_close(before: Live, after: Live, o: Order, qty: i64, since: u64) -> bool {
    &&& after == (Live { pending: after.pending, ..before })
    &&& after.pending matches Some(p) && p.order == o && p.filled == qty && p.since == since
        && p.attempts == 0
}

/// Alarms on a leg left naked and hands it over to be healed: both or neither.
pub fn park(
    live: &mut Live,
    gauges: &mut Gauges,
    o: &Order,
    qty: i64,
    since: u64,
    why: &str,
    opened: &str,
) -> (r: String)
    requires
        old(live).wf(),
        qty_ok(qty),
    ensures
        final(live).wf(),
        parked_close(*old(live), *final(live), *o, qty, since),
        *final(gauges) == old(gauges).plus_unresolved(),
        r@ == alarm_text(*o, qty, why@, opened@, old(gauges).plus_unresolved().unresolved),
{
    let line: String = alarm_unresolved(gauges, o, qty, why, opened);
    live.pending = Some(PendingClose { order: o.clone(), filled: qty, since, attempts: 0 });
    line
}

/// The touch that a close trades against as it was published, if it was.
pub open spec fn touch_text(o: Order, view: EngineView) -> Seq<char> {
    match close_touch(o, view) {
        Some(t) => t@,
        None => ""@,
    }
}

/// What to do about a first leg that filled.
#[derive(Debug)]
pub enum CloseStep {
    /// The close no longer pays; the leg was handed over to be healed.
    Parked { line: String },
    Send { req: PlaceRequest },
}

/// The first leg of an exit filled. The exit is spent, so the slot is freed
/// whatever comes; the other leg is priced against the book as it is now.
pub fn close_leg(
    live: &mut Live,
    gauges: &mut Gauges,
    r: &Resting,
    filled: i64,
    view: &EngineView,
    client: &str,
    opened: &str,
) -> (step: CloseStep)
    requires
        old(live).wf(),
        qty_ok(filled),
    ensures
        final(live).wf(),
        match close_price(old(live).fees, r.order, filled, *view) {
            Ok(p) => {
                &&& step matches CloseStep::Send { req } && closes_exit(
                    req,
                    r.order,
                    on_wire(p),
                    filled as int,
                    client@,
                )
                &&& *final(live) == (Live { resting: None, ..*old(live) })
                &&& *final(gauges) == *old(gauges)
            },
            Err(e) => {
                &&& step matches CloseStep::Parked { line } && line@ == alarm_text(
                    r.order,
                    filled,
                    e.message(r.order, touch_text(r.order, *view)),
                    opened@,
                    old(gauges).plus_unresolved().unresolved,
                )
                &&& parked_close(
                    Live { resting: None, ..*old(live) },
                    *final(live),
                    r.order,
                    filled,
                    r.since,
                )
                &&& *final(gauges) == old(gauges).plus_unresolved()
            },
        },
{
    live.resting = None;
    match price_close(&live.fees, &r.order, filled, view) {
        Ok(price) => CloseStep::Send { req: close_request(&r.order, price, filled, client) },
        Err(e) => {
            let why: String = match find_touch(&r.order, view) {
                Some(t) => e.text(&r.order, t.as_str()),
                None => e.text(&r.order, ""),
            };
            let line: String = park(
                live,
                gauges,
                &r.order,
                filled,
                r.since,
                why.as_str(),
                opened,
            );
            CloseStep::Parked { line }
        },
    }
}

/// What came of a close.
#[derive(Debug)]
pub struct CloseDone {
    /// Contracts to book as closed; none where nothing closed.
    pub booked: i64,
    /// The alarm of what was left naked, if anything was.
    pub alarm: Option<String>,
}

/// How many contracts of a close are to be booked.
pub open spec fn to_book(filled: i64, poll: Poll) -> int {
    if poll.unreadable || poll.got < 1 {
        0
    } else if poll.got < filled {
        poll.got as int
    } else {
        filled as int
    }
}

/// Why a close left contracts naked.
pub open spec fn left_because(poll: Poll, unread: Seq<char>) -> Seq<char> {
    if poll.unreadable {
        unread
    } else if poll.got < 1 {
        "the close IOC did not fill"@
    } else {
        "the close IOC filled only partly"@
    }
}

/// Takes in the fill of a close of `filled` contracts. What did not close is
/// handed over to be healed; an unreadable fill counts as none closed.
/// `unread` says why the fill could not be read.
pub fn close_settle(
    live: &mut Live,
    gauges: &mut Gauges,
    r: &Resting,
    filled: i64,
    poll: &Poll,
    unread: &str,
    opened: &str,
) -> (done: CloseDone)
    requires
        old(live).wf(),
        qty_ok(filled),
    ensures
        final(live).wf(),
        done.booked == to_book(filled, *poll),
        done.booked < filled ==> {
            &&& done.alarm matches Some(line) && line@ == alarm_text(
                r.order,
                (filled - done.booked) as i64,
                left_because(*poll, unread@),
                opened@,
                old(gauges).plus_unresolved().unresolved,
            )
            &&& parked_close(
                *old(live),
                *final(live),
                r.order,
                (filled - done.booked) as i64,
                r.since,
            )
            &&& *final(gauges) == old(gauges).plus_unresolved()
        },
        done.booked == filled ==> {
            &&& done.alarm is None
            &&& *final(live) == *old(live)
            &&& *final(gauges) == *old(gauges)
        },
{
    if poll.unreadable {
        let line: String = park(live, gauges, &r.order, filled, r.since, unread, opened);
        return CloseDone { booked: 0, alarm: Some(line) };
    }
    if poll.got < 1 {
        let line: String = park(
            live,
            gauges,
            &r.order,
            filled,
            r.since,
            "the close IOC did not fill",
            opened,
        );
        return CloseDone { booked: 0, alarm: Some(line) };
    }
    if poll.got < filled {
        let line: String = park(
            live,
            gauges,
            &r.order,
            filled - poll.got,
            r.since,
            "the close IOC filled only partly",
            opened,
        );
        return CloseDone { booked: poll.got, alarm: Some(line) };
    }
    CloseDone { booked: filled, alarm: None }
}

/// The prices at which an exit is booked.
#[derive(Debug)]
pub struct Booked {
    pub rest: String,
    pub close: String,
    /// Whether the venues' own fills were plausible together.
    pub plausible: bool,
}

/// The prices to book, of the first leg and of the close: what the venues say
/// where the two are plausible together, and else the limits.
pub open spec fn prices_booked(
    o: Order,
    rest_fill: Option<OrderFill>,
    close_fill: Option<OrderFill>,
    limit: Seq<char>,
) -> (Seq<char>, Seq<char>, bool) {
    let rest = booked_at(
        rest_fill,
        o.sent_at()@,
        Direction::Standard.sells_at(o.shape.rests_at()),
    );
    let close = booked_at(
        close_fill,
        limit,
        Direction::Standard.sells_at(o.shape.closes_at()),
    );
    let (k, pm) = by_venue(o.shape, rest, close);
    if plausible(Direction::Standard, k, pm) {
        (rest, close, true)
    } else {
        (o.sent_at()@, limit, false)
    }
}

/// The prices to book for an exit that closed; `limit` is that of the closing
/// order.
pub fn close_prices(
    o: &Order,
    rest_fill: &Option<OrderFill>,
    close_fill: &Option<OrderFill>,
    limit: &str,
) -> (r: Booked)
    ensures
        (r.rest@, r.close@, r.plausible) == prices_booked(*o, *rest_fill, *close_fill, limit@),
{
    let rest: String = filled_price_or_limit(
        rest_fill,
        o.rest_limit(),
        sells_yes(o.shape.rest_venue()),
    );
    let close: String = filled_price_or_limit(
        close_fill,
        limit,
        sells_yes(o.shape.close_venue()),
    );
    let (k, pm): (&str, &str) = fills_by_venue(o, rest.as_str(), close.as_str());
    if plausible_pair(k, pm) {
        Booked { rest, close, plausible: true }
    } else {
        Booked { rest: o.rest_limit().to_owned(), close: limit.to_owned(), plausible: false }
    }
}

// ----------------------------------------------------------------- healing

/// What to do about a close that failed.
#[derive(Clone, Copy, Debug, PartialEq, Eq, Structural)]
pub enum HealPlan {
    /// There is nothing to heal.
    Nothing,
    /// The positions cannot be read, so there is no honest size.
    NoPositions,
    NoLedger,
    /// The venue says that it completed after all: book it.
    Settled,
    /// It does not pay yet, and the window in which it must is open.
    NotYet { owed: i64, why: CloseRefusal },
    /// The window is over, and there is no book to cross.
    Dark { owed: i64, why: CloseRefusal },
    /// The touch is no price.
    TouchNoPrice,
    /// One tick through the touch is no price.
    NoThrough,
    /// Send an order for what is owed; `forced` where it does not pay.
    Send { owed: i64, price: Px, forced: Option<CloseRefusal> },
}

/// One tick through a touch, in the direction of the close.
pub open spec fn through(shape: Shape, touch: (int, int)) -> (int, int) {
    match shape {
        Shape::RestKalshi => total(touch, dollars(CENT as int)),
        Shape::RestPmUs => less_by(touch, dollars(CENT as int)),
    }
}

/// The plan for a pending close that has now been tried `attempts` times, of
/// what the open leg's venue and the ledger say.
pub open spec fn heal_plan(
    fees: FeeSchedule,
    o: Order,
    filled: i64,
    attempts: u32,
    net: Option<i64>,
    ledger_qty: Option<i64>,
    view: EngineView,
) -> HealPlan {
    match (net, ledger_qty) {
        (None, _) => HealPlan::NoPositions,
        (_, None) => HealPlan::NoLedger,
        (Some(n), Some(l)) => {
            let owed = still_owed(o.shape, filled as int, l as int, n as int) as i64;
            if owed <= 0 {
                HealPlan::Settled
            } else {
                match close_price(fees, o, owed, view) {
                    Ok(price) => HealPlan::Send { owed, price, forced: None },
                    Err(why) => if attempts <= HEAL_PROFITABLE_CYCLES {
                        HealPlan::NotYet { owed, why }
                    } else {
                        match close_touch(o, view) {
                            None => HealPlan::Dark { owed, why },
                            Some(t) => match fraction_of(t@) {
                                None => HealPlan::TouchNoPrice,
                                Some(touch) => if through(o.shape, touch).0 <= 0 {
                                    HealPlan::NoThrough
                                } else {
                                    HealPlan::Send {
                                        owed,
                                        price: quantized(through(o.shape, touch)) as i64,
                                        forced: Some(why),
                                    }
                                },
                            },
                        }
                    },
                }
            }
        },
    }
}

/// One more attempt.
pub open spec fn attempts_after(p: PendingClose) -> u32 {
    if p.attempts < u32::MAX {
        (p.attempts + 1) as u32
    } else {
        p.attempts
    }
}

/// What a try at a pending close comes to.
#[derive(Debug)]
pub struct HealStep {
    pub plan: HealPlan,
    /// The order to send, where there is one.
    pub req: Option<PlaceRequest>,
    /// The close that is over and to be booked, where it is.
    pub done: Option<PendingClose>,
}

fn held(plan: HealPlan) -> (r: HealStep)
    ensures
        r == (HealStep { plan, req: None, done: None }),
{
    HealStep { plan, req: None, done: None }
}

/// Tries a pending close once more. It never assumes: `net` is the venue's
/// count of the open leg's YES contracts, in millionths, and `ledger_qty` what
/// the ledger's open lots claim there, each `None` where it cannot be read. The
/// latch clears only on evidence. Where an order is to be sent it comes along.
pub fn heal(
    live: &mut Live,
    gauges: &mut Gauges,
    net: Option<i64>,
    ledger_qty: Option<i64>,
    view: &EngineView,
    client: &str,
) -> (r: HealStep)
    requires
        old(live).wf(),
    ensures
        final(live).wf(),
        match old(live).pending {
            None => {
                &&& r == (HealStep { plan: HealPlan::Nothing, req: None, done: None })
                &&& *final(live) == *old(live)
                &&& *final(gauges) == *old(gauges)
            },
            Some(p) => {
                let plan = heal_plan(
                    old(live).fees,
                    p.order,
                    p.filled,
                    attempts_after(p),
                    net,
                    ledger_qty,
                    *view,
                );
                let tried = PendingClose { attempts: attempts_after(p), ..p };
                &&& r.plan == plan
                &&& match plan {
                    HealPlan::Send { owed, price, .. } => r.req matches Some(req) && closes_exit(
                        req,
                        p.order,
                        on_wire(price),
                        owed as int,
                        client@,
                    ),
                    _ => r.req is None,
                }
                &&& if plan is Settled {
                    &&& r.done == Some(tried)
                    &&& *final(live) == (Live { pending: None, ..*old(live) })
                    &&& *final(gauges) == old(gauges).plus_healed()
                } else {
                    &&& r.done is None
                    &&& *final(live) == (Live { pending: Some(tried), ..*old(live) })
                    &&& *final(gauges) == *old(gauges)
                }
            },
        },
{
    let mut p: PendingClose = match live.pending.take() {
        None => {
            return held(HealPlan::Nothing);
        },
        Some(p) => p,
    };
    if p.attempts < u32::MAX {
        p.attempts = p.attempts + 1;
    }
    let (n, l): (i64, i64) = match (net, ledger_qty) {
        (None, _) => {
            live.pending = Some(p);
            return held(HealPlan::NoPositions);
        },
        (_, None) => {
            live.pending = Some(p);
            return held(HealPlan::NoLedger);
        },
        (Some(n), Some(l)) => (n, l),
    };
    let owed: i64 = shortfall(l, &p, n);
    if owed <= 0 {
        gauges.note_healed();
        return HealStep { plan: HealPlan::Settled, req: None, done: Some(p) };
    }
    match find_close_price(&live.fees, &p.order, owed, view) {
        Ok(price) => {
            let req: PlaceRequest = close_request(&p.order, px4(price), owed, client);
            live.pending = Some(p);
            HealStep { plan: HealPlan::Send { owed, price, forced: None }, req: Some(req), done: None }
        },
        Err(why) => {
            if p.attempts <= HEAL_PROFITABLE_CYCLES {
                live.pending = Some(p);
                return held(HealPlan::NotYet { owed, why });
            }
            let touch: Ratio = match find_touch(&p.order, view) {
                None => {
                    live.pending = Some(p);
                    return held(HealPlan::Dark { owed, why });
                },
                Some(t) => match Ratio::read(t.as_str()) {
                    None => {
                        live.pending = Some(p);
                        return held(HealPlan::TouchNoPrice);
                    },
                    Some(x) => x,
                },
            };
            let tick: Ratio = Ratio::dollars(CENT);
            let past: Ratio = match p.order.shape {
                Shape::RestKalshi => touch.total(&tick),
                Shape::RestPmUs => touch.less_by(&tick),
            };
            if !past.above(0) {
                live.pending = Some(p);
                return held(HealPlan::NoThrough);
            }
            let price: Px = quantize(&past);
            let req: PlaceRequest = close_request(&p.order, px4(price), owed, client);
            live.pending = Some(p);
            HealStep { plan: HealPlan::Send { owed, price, forced: Some(why) }, req: Some(req), done: None }
        },
    }
}

/// Takes in what a retry of `owed` contracts filled. Once it has closed the
/// last of them the close is over and is handed back to be booked for all that
/// its first leg traded; until then it stays pending.
pub fn heal_settle(live: &mut Live, gauges: &mut Gauges, owed: i64, got: i64) -> (r: Option<
    PendingClose,
>)
    requires
        old(live).wf(),
    ensures
        final(live).wf(),
        if got >= owed && old(live).pending is Some {
            &&& r == old(live).pending
            &&& *final(live) == (Live { pending: None, ..*old(live) })
            &&& *final(gauges) == old(gauges).plus_healed()
        } else {
            &&& r is None
            &&& *final(live) == *old(live)
            &&& *final(gauges) == *old(gauges)
        },
{
    if got < owed {
        return None;
    }
    match live.pending.take() {
        None => None,
        Some(p) => {
            gauges.note_healed();
            Some(p)
        },
    }
}

// ---------------------------------------------------- looking after an exit

/// Whether a failed fill read says that the order is gone: the id is unknown,
/// and the order is old enough that this is no lag.
pub fn is_vanished(status: Option<u16>, age_ns: u64) -> (r: bool)
    ensures
        r == (status == Some(404u16) && age_ns >= VANISHED_MIN_AGE_NS),
{
    match status {
        Some(s) => s == 404 && age_ns >= VANISHED_MIN_AGE_NS,
        None => false,
    }
}

/// What a venue answered about the fill of a resting order.
#[derive(Clone, Copy, Debug, PartialEq, Eq, Structural)]
pub enum FillRead {
    Filled { qty: i64 },
    /// It failed, with the status of its answer where there was one.
    Failed { status: Option<u16> },
}

/// What to do about the resting exit.
#[derive(Clone, Copy, Debug, PartialEq, Eq, Structural)]
pub enum ManageStep {
    /// Nothing rests.
    Nothing,
    /// The fill cannot be read; ask again next cycle.
    Hold,
    /// The order is gone; find out whether it traded first.
    Vanished,
    /// It has filled: cancel the remainder and read the count again.
    Cancel { filled: i64 },
    /// It has not filled and still pays.
    Keep,
    /// It has not filled and no longer pays.
    Pull { why: PayRefusal },
}

/// What to do about a resting exit.
pub open spec fn manage_step(
    live: Live,
    read: FillRead,
    view: EngineView,
    now: u64,
) -> ManageStep {
    match live.resting {
        None => ManageStep::Nothing,
        Some(r) => match read {
            FillRead::Failed { status } => if status == Some(404u16) && elapsed(r.since, now)
                >= VANISHED_MIN_AGE_NS {
                ManageStep::Vanished
            } else {
                ManageStep::Hold
            },
            FillRead::Filled { qty } => if qty >= 1 {
                ManageStep::Cancel { filled: qty }
            } else {
                match pay_refusal(live.fees, r.order, view) {
                    Some(why) => ManageStep::Pull { why },
                    None => ManageStep::Keep,
                }
            },
        },
    }
}

/// Looks after the resting exit: has it filled, and does it still pay?
pub fn manage(live: &Live, read: FillRead, view: &EngineView, now: u64) -> (r: ManageStep)
    requires
        live.wf(),
    ensures
        r == manage_step(*live, read, *view, now),
{
    match &live.resting {
        None => ManageStep::Nothing,
        Some(r) => match read {
            FillRead::Failed { status } => if is_vanished(status, elapsed_ns(r.since, now)) {
                ManageStep::Vanished
            } else {
                ManageStep::Hold
            },
            FillRead::Filled { qty } => if qty >= 1 {
                ManageStep::Cancel { filled: qty }
            } else {
                match still_pays(&live.fees, &r.order, view) {
                    Err(why) => ManageStep::Pull { why },
                    Ok(()) => ManageStep::Keep,
                }
            },
        },
    }
}

/// The count to close after the remainder was cancelled: the larger of the two
/// reads, or the first where the second failed.
pub fn settled_fill(filled: i64, reread: Option<i64>) -> (r: i64)
    ensures
        r == (match reread {
            Some(n) => if n > filled {
                n
            } else {
                filled
            },
            None => filled,
        }),
{
    match reread {
        Some(n) => if n > filled {
            n
        } else {
            filled
        },
        None => filled,
    }
}

/// How much of a settled count to close: no more than was ordered. An excess
/// has no lot to book against, and alarms.
pub fn clamp_fill(gauges: &mut Gauges, o: &Order, settled: i64, opened: &str) -> (r: (
    i64,
    Option<String>,
))
    requires
        qty_ok(o.qty),
    ensures
        settled <= o.qty ==> r == (settled, None::<String>) && *final(gauges) == *old(gauges),
        settled > o.qty ==> {
            &&& r.0 == o.qty
            &&& r.1 matches Some(line) && line@ == alarm_text(
                *o,
                (settled - o.qty) as i64,
                "the venue reports MORE filled than the exit ordered"@,
                opened@,
                old(gauges).plus_unresolved().unresolved,
            )
            &&& *final(gauges) == old(gauges).plus_unresolved()
        },
{
    if settled <= o.qty {
        return (settled, None);
    }
    let line: String = alarm_unresolved(
        gauges,
        o,
        settled - o.qty,
        "the venue reports MORE filled than the exit ordered",
        opened,
    );
    (o.qty, Some(line))
}

/// Takes the resting exit out of the slot, to be cancelled.
pub fn pull(live: &mut Live) -> (r: Option<Resting>)
    requires
        old(live).wf(),
    ensures
        final(live).wf(),
        r == old(live).resting,
        *final(live) == (Live { resting: None, ..*old(live) }),
{
    live.resting.take()
}

/// Takes in whether a cancel completed. Where it did not, the order may still
/// rest, and its market is kept worked for good.
pub fn cancel_settle(live: &mut Live, o: &Order, done: bool)
    requires
        old(live).wf(),
    ensures
        final(live).wf(),
        *final(live) == (Live { unaddressable: final(live).unaddressable, ..*old(live) }),
        done ==> final(live).unaddressable == old(live).unaddressable,
        !done ==> with_name(
            old(live).unaddressable@,
            o.rests_on()@,
            final(live).unaddressable@,
        ),
{
    if !done {
        add_name(&mut live.unaddressable, o.rest_market());
    }
}

// ------------------------------------------------------- the vanished order

/// What the venue's positions say of the market of a vanished order.
#[derive(Clone, Copy, Debug, PartialEq, Eq, Structural)]
pub enum NetRead {
    Unreadable,
    /// The positions hold no row for the market.
    NoRow,
    /// The count of YES contracts, in millionths.
    Row { net: i64 },
}

/// What became of an order that vanished.
#[derive(Clone, Copy, Debug, PartialEq, Eq, Structural)]
pub enum Vanished {
    /// What should be held cannot be read; the slot is held.
    NoLedger,
    /// What is held cannot be read; the slot is held.
    NoPositions,
    /// The positions lack a row that the ledger says must be there.
    Degraded,
    /// It traded nothing; the slot is free.
    TradedNothing,
    /// More is gone than the order can account for; the slot is held.
    TooMuch { gone: i64 },
    /// It traded this many, to be closed.
    Traded { qty: i64 },
}

/// How many contracts are held, in millionths: a Kalshi long counts up, a PM-US
/// short down.
pub open spec fn held_micro(shape: Shape, net: NetRead) -> int {
    let signed = match net {
        NetRead::Row { net } => net as int,
        _ => 0,
    };
    match shape {
        Shape::RestKalshi => signed,
        Shape::RestPmUs => if -signed > 0 {
            -signed
        } else {
            0
        },
    }
}

/// How many contracts are gone, of those that the ledger expects.
pub open spec fn gone(shape: Shape, expected: i64, net: NetRead) -> int {
    contracts(expected * CONTRACT - held_micro(shape, net))
}

/// What became of an order that vanished, of what the ledger's open lots expect
/// on its market and what its venue says is held.
pub open spec fn vanished(o: Order, expected: Option<i64>, net: NetRead) -> Vanished {
    match expected {
        None => Vanished::NoLedger,
        Some(e) => if net is Unreadable {
            Vanished::NoPositions
        } else if o.shape == Shape::RestPmUs && e > 0 && net is NoRow {
            Vanished::Degraded
        } else if gone(o.shape, e, net) <= 0 {
            Vanished::TradedNothing
        } else if gone(o.shape, e, net) > o.qty {
            Vanished::TooMuch {
                gone: if gone(o.shape, e, net) <= i64::MAX {
                    gone(o.shape, e, net) as i64
                } else {
                    i64::MAX
                },
            }
        } else {
            Vanished::Traded { qty: gone(o.shape, e, net) as i64 }
        },
    }
}

/// Finds out whether an order that vanished traded first. It frees the slot
/// only where the venue's positions say that nothing did.
pub fn resolve_vanished(live: &mut Live, r: &Resting, expected: Option<i64>, net: NetRead) -> (v:
    Vanished)
    requires
        old(live).wf(),
    ensures
        final(live).wf(),
        v == vanished(r.order, expected, net),
        *final(live) == (if v is TradedNothing {
            Live { resting: None, ..*old(live) }
        } else {
            *old(live)
        }),
{
    let e: i64 = match expected {
        None => {
            return Vanished::NoLedger;
        },
        Some(e) => e,
    };
    let signed: i128 = match net {
        NetRead::Unreadable => {
            return Vanished::NoPositions;
        },
        NetRead::NoRow => {
            if r.order.shape == Shape::RestPmUs && e > 0 {
                return Vanished::Degraded;
            }
            0
        },
        NetRead::Row { net } => net as i128,
    };
    let held: i128 = match r.order.shape {
        Shape::RestKalshi => signed,
        Shape::RestPmUs => if -signed > 0 {
            -signed
        } else {
            0
        },
    };
    let missing: i128 = whole_contracts((e as i128) * CONTRACT - held);
    if missing <= 0 {
        live.resting = None;
        return Vanished::TradedNothing;
    }
    if missing > r.order.qty as i128 {
        return Vanished::TooMuch {
            gone: if missing <= i64::MAX as i128 {
                missing as i64
            } else {
                i64::MAX
            },
        };
    }
    Vanished::Traded { qty: missing as i64 }
}

// --------------------------------------------------------------------- laws

/// A vanished order is never taken to have traded more than it ordered, nor
/// anything on a read that failed or that lacks its row on PM-US.
pub proof fn law_a_vanished_order_books_no_more_than_it_ordered(
    o: Order,
    expected: Option<i64>,
    net: NetRead,
    qty: i64,
)
    requires
        vanished(o, expected, net) == (Vanished::Traded { qty }),
    ensures
        1 <= qty <= o.qty,
        expected is Some,
        !(net is Unreadable),
        o.shape == Shape::RestPmUs ==> net is Row || expected->0 <= 0,
{
}

/// A retry is sized to what is still owed, never to more than the first leg
/// traded; inside the window it is sent only where it pays; and nothing is sent
/// on a read that failed.
pub proof fn law_a_retry_is_sized_to_the_shortfall(
    fees: FeeSchedule,
    o: Order,
    filled: i64,
    attempts: u32,
    net: Option<i64>,
    ledger_qty: Option<i64>,
    view: EngineView,
    owed: i64,
    price: Px,
    forced: Option<CloseRefusal>,
)
    requires
        filled >= 0,
        heal_plan(fees, o, filled, attempts, net, ledger_qty, view) == (HealPlan::Send {
            owed,
            price,
            forced,
        }),
    ensures
        1 <= owed <= filled,
        net is Some && ledger_qty is Some,
        owed == still_owed(o.shape, filled as int, ledger_qty->0 as int, net->0 as int),
        forced is None ==> close_price(fees, o, owed, view) == Ok::<Px, CloseRefusal>(price),
        forced is Some ==> attempts > HEAL_PROFITABLE_CYCLES,
{
}

/// Past its window a close is crossed out as long as there is a book to cross:
/// it never waits for a price that pays.
pub proof fn law_a_close_is_crossed_out_past_its_window(
    fees: FeeSchedule,
    o: Order,
    filled: i64,
    attempts: u32,
    net: i64,
    ledger_qty: i64,
    view: EngineView,
    touch: (int, int),
)
    requires
        filled >= 0,
        attempts > HEAL_PROFITABLE_CYCLES,
        close_touch(o, view) matches Some(t) && fraction_of(t@) == Some(touch),
        through(o.shape, touch).0 > 0,
        still_owed(o.shape, filled as int, ledger_qty as int, net as int) > 0,
    ensures
        heal_plan(fees, o, filled, attempts, Some(net), Some(ledger_qty), view) is Send,
{
}

/// What a close books and what it leaves naked come to what its first leg
/// traded.
pub proof fn law_a_close_books_or_parks_every_contract(filled: i64, poll: Poll)
    requires
        filled >= 1,
    ensures
        0 <= to_book(filled, poll) <= filled,
        poll.unreadable ==> to_book(filled, poll) == 0,
        to_book(filled, poll) > 0 ==> to_book(filled, poll) <= poll.got,
{
}

/// A close trades the side opposite to the one that its first leg traded, at
/// the other venue.
pub proof fn law_a_close_takes_the_other_side(shape: Shape)
    ensures
        first_side(shape) != closing_side(shape),
        shape.rests_at() != shape.closes_at(),
        (first_side(shape) == Side::Ask) == Direction::Standard.sells_at(shape.rests_at()),
        (closing_side(shape) == Side::Ask) == Direction::Standard.sells_at(shape.closes_at()),
{
}

} // verus!
