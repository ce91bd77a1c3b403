//! One pass over a lot: from what is known of its order to the next thing to ask
//! of a venue or of the ledger, until the pass is over.
//!
//! The state is to be kept before each action is performed, and at the end of the
//! pass: what a stop leaves undone, the next pass takes up from there.
use crate::board::EngineView;
use crate::fees::FeeSchedule;
use crate::fills::OrderFill;
use crate::hedge::{CrossRefusal, HedgeRefusal};
use crate::ids::IdClock;
use crate::lot::{asked_by, Active, Receipt, State};
use crate::lot_steps::{
    absence_is_proof, booked_prices, bookings, hedge_plan, hedge_recovered, hedge_reply,
    hedge_settle, hedge_step, identity, lot_prices, made_out, number_of, rest_plan, rest_recovered,
    rest_settle, rest_step, terminal, tried, AfterRest, BookRefusal, HedgeDone, HedgeSent,
    HedgeStep, Identity, RecoverReply, Recovery, RestStep, SendReply, Terminal, TerminalReply,
};
use crate::order::Order;
use crate::venue::{PlaceRequest, Venue};
use vstd::prelude::*;

verus! {

/// What a pass waits for.
#[derive(Clone, Copy, Debug, PartialEq, Eq, Structural)]
pub enum Phase {
    /// Which of the venue's orders the first order is.
    RestIdentity,
    /// Whether the first order is over.
    RestEnd,
    /// How much of it has filled so far.
    RestFills,
    /// Its cancellation.
    RestCancel,
    /// Whether it is over after that.
    RestGone,
    /// What came of sending the hedge.
    HedgeSent,
    /// Which of the venue's orders the hedge is.
    HedgeIdentity,
    /// Whether the hedge is over.
    HedgeEnd,
    /// What both legs filled at, where the hedge closed so many.
    Prices { got: i64 },
    /// Whether what the hedge closed is booked.
    Booking { got: i64 },
}

/// What came of an action.
#[derive(Debug)]
pub enum Event {
    Recovered { answer: RecoverReply },
    End { answered: TerminalReply },
    Fills { qty: Option<i64> },
    Cancelled,
    Sent { reply: SendReply },
    Priced { rest: Option<OrderFill>, close: Option<OrderFill> },
    Booked { done: bool },
}

/// What to do.
#[derive(Debug)]
pub enum Act {
    /// Ask the venue for the order of this request.
    Recover { req: PlaceRequest },
    /// Ask whether an order is over: the hedge, or the first one.
    ReadEnd { hedge: bool },
    ReadFills,
    Cancel { why: RestStep },
    /// Send the hedge.
    Send { req: PlaceRequest },
    /// Ask what both legs filled at.
    ReadPrices,
    /// Book each part under its number, at these prices.
    Book { parts: Vec<(Order, u64)>, rest: String, close: String },
}

/// How a pass ended.
#[derive(Clone, Copy, Debug, PartialEq, Eq, Structural)]
pub enum End {
    /// The first order never landed; its lots are free.
    NeverLanded,
    /// The first order rests on.
    Kept,
    /// The first order filled nothing; its lots are free.
    NothingFilled,
    /// All that filled is closed; its lots are free.
    AllClosed,
}

/// Why a pass cannot go on now.
#[derive(Clone, Copy, Debug, PartialEq, Eq, Structural)]
pub enum Failure {
    /// The answer to an order was lost, and no order can be told to be it.
    AckLost { hedge: bool },
    /// Whether an order landed is not known.
    Unconfirmed { hedge: bool },
    /// The count of an order that is over cannot be believed.
    EndUnconfirmed,
    FillsUnread,
    /// The cancellation has not come through.
    NotOver,
    NoView,
    Waits { because: HedgeRefusal },
    Stuck { on: CrossRefusal },
    HedgeRefused,
    HedgeUnknown,
    HedgeNotOver,
    HedgeOwes { qty: i64 },
    Unbookable { refusal: BookRefusal },
    NotBooked,
}

/// How a pass goes on.
#[derive(Debug)]
pub enum Go {
    /// Do this, and hand back what came of it.
    Wait { phase: Phase, act: Act },
    Done { end: End },
    Failed { why: Failure },
}

// ------------------------------------------------------------ the transition

/// Whether an event answers what a pass waits for.
pub open spec fn answers(event: Event, phase: Phase) -> bool {
    match phase {
        Phase::RestIdentity | Phase::HedgeIdentity => event is Recovered,
        Phase::RestEnd | Phase::RestGone | Phase::HedgeEnd => event is End,
        Phase::RestFills => event is Fills,
        Phase::RestCancel => event is Cancelled,
        Phase::HedgeSent => event is Sent,
        Phase::Prices { .. } => event is Priced,
        Phase::Booking { .. } => event is Booked,
    }
}

/// Whether a pass over a lot can be waiting for this.
pub open spec fn waits(s: State, phase: Phase) -> bool {
    &&& s.wf()
    &&& s.active is Some
    &&& match phase {
        Phase::RestIdentity => true,
        Phase::RestEnd | Phase::RestFills | Phase::RestCancel | Phase::RestGone =>
            s.active->0.filled is None,
        Phase::HedgeSent | Phase::HedgeIdentity | Phase::HedgeEnd => s.active->0.hedge is Some,
        Phase::Prices { got } | Phase::Booking { got } => {
            &&& s.active->0.hedge is Some
            &&& 1 <= got <= s.active->0.hedge->0.qty
        },
    }
}

/// A step that leaves everything as it was.
pub open spec fn still(pre: State, post: State, last: u64, after: u64) -> bool {
    post == pre && after == last
}

/// What follows where the hedge is out: ask whether it is over, once it is known
/// which order it is.
pub open spec fn awaits_hedge(s: State, go: Go) -> bool {
    let a = s.active->0;
    let h = a.hedge->0;
    if h.id is Some {
        go == (Go::Wait { phase: Phase::HedgeEnd, act: Act::ReadEnd { hedge: true } })
    } else if a.order.shape.closes_at() == Venue::PolymarketUs {
        go == (Go::Failed { why: Failure::AckLost { hedge: true } })
    } else {
        &&& go is Wait
        &&& go->phase == Phase::HedgeIdentity
        &&& go->act is Recover
        &&& asked_by(go->act->Recover_req, h, a.order, true)
    }
}

/// What follows where contracts are owed: wait for the hedge that is out, or
/// make one out for exactly what is owed.
pub open spec fn owes(
    pre: State,
    post: State,
    last: u64,
    after: u64,
    fees: FeeSchedule,
    view: Option<&EngineView>,
    now: u64,
    go: Go,
) -> bool {
    let a = pre.active->0;
    let owed = a.filled->0 - a.hedged;
    if a.hedge is Some {
        still(pre, post, last, after) && awaits_hedge(pre, go)
    } else {
        match view {
            None => still(pre, post, last, after) && go == (Go::Failed { why: Failure::NoView }),
            Some(v) => match hedge_plan(fees, a, tried(a.attempts), *v) {
                Ok(p) => {
                    let b = post.active->0;
                    &&& post == (State { active: post.active, ..pre })
                    &&& post.active is Some
                    &&& b.hedge is Some
                    &&& b == (Active { attempts: tried(a.attempts), hedge: b.hedge, ..a })
                    &&& made_out(b.hedge->0, p, owed, a.lots().len(), last, now, after)
                    &&& go is Wait
                    &&& go->phase == Phase::HedgeSent
                    &&& go->act is Send
                    &&& asked_by(go->act->Send_req, b.hedge->0, a.order, true)
                },
                Err(why) => {
                    &&& post == (State {
                        active: Some(Active { attempts: tried(a.attempts), ..a }),
                        ..pre
                    })
                    &&& after == last
                    &&& go == (Go::Failed {
                        why: match why {
                            Ok(e) => Failure::Waits { because: e },
                            Err(e) => Failure::Stuck { on: e },
                        },
                    })
                },
            },
        }
    }
}

/// What follows once the first order is over, or is not.
pub open spec fn rested(
    pre: State,
    over: Option<i64>,
    post: State,
    last: u64,
    after: u64,
    fees: FeeSchedule,
    view: Option<&EngineView>,
    now: u64,
    go: Go,
) -> bool {
    let a = pre.active->0;
    let filled = if a.filled is Some {
        a.filled
    } else {
        over
    };
    match filled {
        None => still(pre, post, last, after) && go == (Go::Failed { why: Failure::NotOver }),
        Some(f) => if f == 0 {
            &&& still(State { active: None, ..pre }, post, last, after)
            &&& go == (Go::Done { end: End::NothingFilled })
        } else if a.hedged == f {
            &&& still(State { active: None, ..pre }, post, last, after)
            &&& go == (Go::Done { end: End::AllClosed })
        } else {
            owes(
                State { active: Some(Active { filled: Some(f), ..a }), ..pre },
                post,
                last,
                after,
                fees,
                view,
                now,
                go,
            )
        },
    }
}

/// What follows once it is known which order the first one is.
pub open spec fn known(
    pre: State,
    post: State,
    last: u64,
    after: u64,
    fees: FeeSchedule,
    view: Option<&EngineView>,
    now: u64,
    go: Go,
) -> bool {
    if pre.active->0.filled is None {
        &&& still(pre, post, last, after)
        &&& go == (Go::Wait { phase: Phase::RestEnd, act: Act::ReadEnd { hedge: false } })
    } else {
        rested(pre, None, post, last, after, fees, view, now, go)
    }
}

/// What follows once so many contracts of a hedge are closed and booked.
pub open spec fn closed(pre: State, got: i64, post: State, go: Go) -> bool {
    let a = pre.active->0;
    let owed = a.filled->0 - a.hedged - got;
    if owed == 0 {
        &&& post == (State { active: None, ..pre })
        &&& go == (Go::Done { end: End::AllClosed })
    } else {
        &&& post == (State {
            active: Some(Active { hedged: (a.hedged + got) as i64, hedge: None, ..a }),
            ..pre
        })
        &&& go == (Go::Failed { why: Failure::HedgeOwes { qty: owed as i64 } })
    }
}

/// Whether parts are those to book for so many contracts of a hedge.
pub open spec fn parts_of(parts: Seq<(Order, u64)>, a: Active, got: i64) -> bool {
    let h = a.hedge->0;
    let (from, to) = (a.hedged as int, a.hedged + got);
    let n = a.lots().len();
    let at = crate::group::sharers(a.lots(), from, to, n);
    &&& parts.len() == at.len()
    &&& forall|k: int|
        0 <= k < at.len() ==> {
            &&& (#[trigger] parts[k]).0 == crate::hedge::part_of(a.lots(), at[k], from, to)
            &&& number_of(h, n, at[k]) == Some(parts[k].1)
        }
}

/// Whether a lot that a hedge reached has no number to be booked under.
pub open spec fn unnumbered(a: Active, got: i64) -> bool {
    let n = a.lots().len();
    let at = crate::group::sharers(a.lots(), a.hedged as int, a.hedged + got, n);
    exists|k: int| 0 <= k < at.len() && number_of(a.hedge->0, n, #[trigger] at[k]) is None
}

/// What follows an event.
pub open spec fn moved(
    pre: State,
    phase: Phase,
    event: Event,
    post: State,
    last: u64,
    after: u64,
    fees: FeeSchedule,
    view: Option<&EngineView>,
    now: u64,
    go: Go,
) -> bool {
    let a = pre.active->0;
    match phase {
        Phase::RestIdentity => match event->answer {
            RecoverReply::Found { id } => known(
                State {
                    active: Some(Active { rest: Receipt { id: Some(id), ..a.rest }, ..a }),
                    ..pre
                },
                post,
                last,
                after,
                fees,
                view,
                now,
                go,
            ),
            reply => if reply is Absent && absence_is_proof(a.rest.book_us, now) {
                &&& still(State { active: None, ..pre }, post, last, after)
                &&& go == (Go::Done { end: End::NeverLanded })
            } else {
                &&& still(pre, post, last, after)
                &&& go == (Go::Failed { why: Failure::Unconfirmed { hedge: false } })
            },
        },
        Phase::RestEnd => match event->answered {
            TerminalReply::Over { qty } => if 0 <= qty <= a.rest.qty {
                rested(pre, Some(qty), post, last, after, fees, view, now, go)
            } else {
                &&& still(pre, post, last, after)
                &&& go == (Go::Failed { why: Failure::EndUnconfirmed })
            },
            TerminalReply::Open => {
                &&& still(pre, post, last, after)
                &&& go == (Go::Wait { phase: Phase::RestFills, act: Act::ReadFills })
            },
            TerminalReply::Unreadable => {
                &&& still(pre, post, last, after)
                &&& go == (Go::Failed { why: Failure::EndUnconfirmed })
            },
        },
        Phase::RestFills => match rest_plan(fees, a, event->Fills_qty, view) {
            RestStep::Unreadable => {
                &&& still(pre, post, last, after)
                &&& go == (Go::Failed { why: Failure::FillsUnread })
            },
            RestStep::Keep => {
                &&& still(State { latched: false, ..pre }, post, last, after)
                &&& go == (Go::Done { end: End::Kept })
            },
            why => {
                &&& still(pre, post, last, after)
                &&& go == (Go::Wait { phase: Phase::RestCancel, act: Act::Cancel { why } })
            },
        },
        Phase::RestCancel => {
            &&& still(pre, post, last, after)
            &&& go == (Go::Wait { phase: Phase::RestGone, act: Act::ReadEnd { hedge: false } })
        },
        Phase::RestGone => match event->answered {
            TerminalReply::Over { qty } => if 0 <= qty <= a.rest.qty {
                rested(pre, Some(qty), post, last, after, fees, view, now, go)
            } else {
                &&& still(pre, post, last, after)
                &&& go == (Go::Failed { why: Failure::EndUnconfirmed })
            },
            TerminalReply::Open => {
                &&& still(pre, post, last, after)
                &&& go == (Go::Failed { why: Failure::NotOver })
            },
            TerminalReply::Unreadable => {
                &&& still(pre, post, last, after)
                &&& go == (Go::Failed { why: Failure::EndUnconfirmed })
            },
        },
        Phase::HedgeSent => match event->reply {
            SendReply::Accepted { id } => {
                &&& still(
                    State {
                        active: Some(
                            Active { hedge: Some(Receipt { id: Some(id), ..a.hedge->0 }), ..a },
                        ),
                        ..pre
                    },
                    post,
                    last,
                    after,
                )
                &&& go == (Go::Wait { phase: Phase::HedgeEnd, act: Act::ReadEnd { hedge: true } })
            },
            SendReply::Rejected => {
                &&& still(
                    State { active: Some(Active { hedge: None, ..a }), ..pre },
                    post,
                    last,
                    after,
                )
                &&& go == (Go::Failed { why: Failure::HedgeRefused })
            },
            SendReply::Unknown => {
                &&& still(pre, post, last, after)
                &&& go == (Go::Failed { why: Failure::HedgeUnknown })
            },
        },
        Phase::HedgeIdentity => match event->answer {
            RecoverReply::Found { id } => {
                &&& still(
                    State {
                        active: Some(
                            Active { hedge: Some(Receipt { id: Some(id), ..a.hedge->0 }), ..a },
                        ),
                        ..pre
                    },
                    post,
                    last,
                    after,
                )
                &&& go == (Go::Wait { phase: Phase::HedgeEnd, act: Act::ReadEnd { hedge: true } })
            },
            _ => {
                &&& still(pre, post, last, after)
                &&& go == (Go::Failed { why: Failure::Unconfirmed { hedge: true } })
            },
        },
        Phase::HedgeEnd => match event->answered {
            TerminalReply::Over { qty } => if !(0 <= qty <= a.hedge->0.qty) {
                &&& still(pre, post, last, after)
                &&& go == (Go::Failed { why: Failure::EndUnconfirmed })
            } else if qty == 0 {
                closed(pre, 0, post, go) && after == last
            } else {
                &&& still(pre, post, last, after)
                &&& go == (Go::Wait { phase: Phase::Prices { got: qty }, act: Act::ReadPrices })
            },
            TerminalReply::Open => {
                &&& still(pre, post, last, after)
                &&& go == (Go::Failed { why: Failure::HedgeNotOver })
            },
            TerminalReply::Unreadable => {
                &&& still(pre, post, last, after)
                &&& go == (Go::Failed { why: Failure::EndUnconfirmed })
            },
        },
        Phase::Prices { got } => {
            &&& still(pre, post, last, after)
            &&& if unnumbered(a, got) {
                go == (Go::Failed { why: Failure::Unbookable { refusal: BookRefusal::NoNumber } })
            } else {
                &&& go is Wait
                &&& go->phase == (Phase::Booking { got })
                &&& go->act is Book
                &&& parts_of(go->act->parts@, a, got)
                &&& (go->act->rest@, go->act->close@) == lot_prices(
                    a.order,
                    a.rest.price@,
                    a.hedge->0.price@,
                    event->rest,
                    event->close,
                )
            }
        },
        Phase::Booking { got } => {
            &&& after == last
            &&& if event->done {
                closed(pre, got, post, go)
            } else {
                post == pre && go == (Go::Failed { why: Failure::NotBooked })
            }
        },
    }
}

/// Whether the clock has room for a hedge and a number for each of its lots.
pub open spec fn has_room(s: State, clock: IdClock, now: u64) -> bool {
    s.active matches Some(a) ==> {
        &&& clock.last + a.lots().len() + 1 < u64::MAX
        &&& now + a.lots().len() + 1 < u64::MAX
    }
}

// ------------------------------------------------------------------ the steps

/// Waits for a hedge that is out.
fn await_hedge(state: &State) -> (r: Go)
    requires
        state.wf(),
        state.active matches Some(a) && a.hedge is Some,
    ensures
        awaits_hedge(*state, r),
        r is Wait ==> waits(*state, r->phase),
{
    match &state.active {
        Some(a) => match &a.hedge {
            Some(h) => match identity(h, &a.order, true) {
                Identity::Known => Go::Wait {
                    phase: Phase::HedgeEnd,
                    act: Act::ReadEnd { hedge: true },
                },
                Identity::Lost => Go::Failed { why: Failure::AckLost { hedge: true } },
                Identity::Ask { req } => Go::Wait {
                    phase: Phase::HedgeIdentity,
                    act: Act::Recover { req },
                },
            },
            None => Go::Failed { why: Failure::NoView },
        },
        None => Go::Failed { why: Failure::NoView },
    }
}

/// Goes on where contracts are owed.
fn pursue(
    state: &mut State,
    fees: &FeeSchedule,
    view: Option<&EngineView>,
    clock: &mut IdClock,
    now: u64,
) -> (r: Go)
    requires
        old(state).wf(),
        old(state).active matches Some(a) && a.filled matches Some(f) && a.hedged < f,
        fees.wf(),
        has_room(*old(state), *old(clock), now),
    ensures
        owes(*old(state), *final(state), old(clock).last, final(clock).last, *fees, view, now, r),
        r is Wait ==> waits(*final(state), r->phase),
        final(state).wf(),
{
    match hedge_step(state, fees, view, clock, now) {
        HedgeStep::Await => await_hedge(state),
        HedgeStep::NoView => Go::Failed { why: Failure::NoView },
        HedgeStep::Waits { because } => Go::Failed { why: Failure::Waits { because } },
        HedgeStep::Stuck { why } => Go::Failed { why: Failure::Stuck { on: why } },
        HedgeStep::Send { req } => Go::Wait { phase: Phase::HedgeSent, act: Act::Send { req } },
    }
}

/// Goes on once the first order is over, or is not.
fn settle(
    state: &mut State,
    over: Option<i64>,
    fees: &FeeSchedule,
    view: Option<&EngineView>,
    clock: &mut IdClock,
    now: u64,
) -> (r: Go)
    requires
        old(state).wf(),
        old(state).active is Some,
        over matches Some(n) ==> 0 <= n <= old(state).active->0.order.qty,
        fees.wf(),
        has_room(*old(state), *old(clock), now),
    ensures
        rested(
            *old(state),
            over,
            *final(state),
            old(clock).last,
            final(clock).last,
            *fees,
            view,
            now,
            r,
        ),
        r is Wait ==> waits(*final(state), r->phase),
        final(state).wf(),
{
    match rest_settle(state, over) {
        AfterRest::NotOver => Go::Failed { why: Failure::NotOver },
        AfterRest::NothingFilled => Go::Done { end: End::NothingFilled },
        AfterRest::AllClosed => Go::Done { end: End::AllClosed },
        AfterRest::Owes { .. } => pursue(state, fees, view, clock, now),
    }
}

/// Goes on once it is known which order the first one is.
fn recognise(
    state: &mut State,
    fees: &FeeSchedule,
    view: Option<&EngineView>,
    clock: &mut IdClock,
    now: u64,
) -> (r: Go)
    requires
        old(state).wf(),
        old(state).active is Some,
        fees.wf(),
        has_room(*old(state), *old(clock), now),
    ensures
        known(*old(state), *final(state), old(clock).last, final(clock).last, *fees, view, now, r),
        r is Wait ==> waits(*final(state), r->phase),
        final(state).wf(),
{
    let fresh: bool = match &state.active {
        Some(a) => a.filled.is_none(),
        None => false,
    };
    if fresh {
        return Go::Wait { phase: Phase::RestEnd, act: Act::ReadEnd { hedge: false } };
    }
    settle(state, None, fees, view, clock, now)
}

/// How a pass over a lot with something under way starts: with which of the
/// venue's orders its first one is, where that is not known.
pub open spec fn started(
    pre: State,
    post: State,
    last: u64,
    after: u64,
    fees: FeeSchedule,
    view: Option<&EngineView>,
    now: u64,
    go: Go,
) -> bool {
    let a = pre.active->0;
    if a.rest.id is Some {
        known(pre, post, last, after, fees, view, now, go)
    } else {
        &&& still(pre, post, last, after)
        &&& if a.order.shape.rests_at() == Venue::PolymarketUs {
            go == (Go::Failed { why: Failure::AckLost { hedge: false } })
        } else {
            &&& go is Wait
            &&& go->phase == Phase::RestIdentity
            &&& go->act is Recover
            &&& asked_by(go->act->Recover_req, a.rest, a.order, false)
        }
    }
}

/// Starts a pass over a lot with something under way.
pub fn start(
    state: &mut State,
    fees: &FeeSchedule,
    view: Option<&EngineView>,
    clock: &mut IdClock,
    now: u64,
) -> (r: Go)
    requires
        old(state).wf(),
        old(state).active is Some,
        fees.wf(),
        has_room(*old(state), *old(clock), now),
    ensures
        started(
            *old(state),
            *final(state),
            old(clock).last,
            final(clock).last,
            *fees,
            view,
            now,
            r,
        ),
        r is Wait ==> waits(*final(state), r->phase),
        final(state).wf(),
{
    let who: Identity = match &state.active {
        Some(a) => identity(&a.rest, &a.order, false),
        None => Identity::Known,
    };
    match who {
        Identity::Known => recognise(state, fees, view, clock, now),
        Identity::Lost => Go::Failed { why: Failure::AckLost { hedge: false } },
        Identity::Ask { req } => Go::Wait {
            phase: Phase::RestIdentity,
            act: Act::Recover { req },
        },
    }
}

/// What a venue's answer about the end of an order comes to.
fn judge(state: &State, hedge: bool, reply: TerminalReply) -> (r: Terminal)
    requires
        state.active matches Some(a) && (hedge ==> a.hedge is Some),
    ensures
        ({
            let a = state.active->0;
            let qty = if hedge {
                a.hedge->0.qty
            } else {
                a.rest.qty
            };
            r == (match reply {
                TerminalReply::Over { qty: n } => if 0 <= n <= qty {
                    Terminal::Over { qty: n }
                } else {
                    Terminal::Unconfirmed
                },
                TerminalReply::Open => Terminal::Open,
                TerminalReply::Unreadable => Terminal::Unconfirmed,
            })
        }),
{
    match &state.active {
        Some(a) => if hedge {
            match &a.hedge {
                Some(h) => terminal(h, reply),
                None => Terminal::Unconfirmed,
            }
        } else {
            terminal(&a.rest, reply)
        },
        None => Terminal::Unconfirmed,
    }
}

/// Books so many contracts of a hedge.
fn close(state: &mut State, got: i64) -> (r: Go)
    requires
        old(state).wf(),
        old(state).active matches Some(a) && a.hedge matches Some(h) && 0 <= got <= h.qty,
    ensures
        closed(*old(state), got, *final(state), r),
        r !is Wait,
        final(state).wf(),
{
    match hedge_settle(state, got) {
        HedgeDone::AllClosed => Go::Done { end: End::AllClosed },
        HedgeDone::Owes { qty } => Go::Failed { why: Failure::HedgeOwes { qty } },
    }
}

/// What to book, of the fills that the venues report.
fn price(
    state: &State,
    got: i64,
    rest_fill: &Option<OrderFill>,
    close_fill: &Option<OrderFill>,
) -> (r: Go)
    requires
        waits(*state, Phase::Prices { got }),
    ensures
        ({
            let a = state.active->0;
            if unnumbered(a, got) {
                r == (Go::Failed { why: Failure::Unbookable { refusal: BookRefusal::NoNumber } })
            } else {
                &&& r is Wait
                &&& r->phase == (Phase::Booking { got })
                &&& r->act is Book
                &&& parts_of(r->act->parts@, a, got)
                &&& (r->act->rest@, r->act->close@) == lot_prices(
                    a.order,
                    a.rest.price@,
                    a.hedge->0.price@,
                    *rest_fill,
                    *close_fill,
                )
            }
        }),
        r is Wait ==> waits(*state, r->phase),
{
    match &state.active {
        Some(a) => match &a.hedge {
            Some(h) => {
                let (rest, close): (String, String) = booked_prices(
                    &a.order,
                    a.rest.price.as_str(),
                    h.price.as_str(),
                    rest_fill,
                    close_fill,
                );
                match bookings(a, got) {
                    Ok(parts) => Go::Wait {
                        phase: Phase::Booking { got },
                        act: Act::Book { parts, rest, close },
                    },
                    Err(refusal) => Go::Failed { why: Failure::Unbookable { refusal } },
                }
            },
            None => Go::Failed { why: Failure::NotBooked },
        },
        None => Go::Failed { why: Failure::NotBooked },
    }
}

/// Goes on while the first order is looked after.
fn next_of_rest(
    state: &mut State,
    phase: Phase,
    event: Event,
    fees: &FeeSchedule,
    view: Option<&EngineView>,
    clock: &mut IdClock,
    now: u64,
) -> (r: Go)
    requires
        waits(*old(state), phase),
        answers(event, phase),
        phase is RestIdentity || phase is RestEnd || phase is RestFills || phase is RestCancel
            || phase is RestGone,
        fees.wf(),
        has_room(*old(state), *old(clock), now),
    ensures
        moved(
            *old(state),
            phase,
            event,
            *final(state),
            old(clock).last,
            final(clock).last,
            *fees,
            view,
            now,
            r,
        ),
        r is Wait ==> waits(*final(state), r->phase),
        final(state).wf(),
{
    match event {
        Event::Recovered { answer } => match rest_recovered(state, answer, now) {
            Recovery::Known => recognise(state, fees, view, clock, now),
            Recovery::NeverLanded => Go::Done { end: End::NeverLanded },
            Recovery::Unconfirmed => Go::Failed { why: Failure::Unconfirmed { hedge: false } },
        },
        Event::End { answered } => match judge(state, false, answered) {
            Terminal::Over { qty } => settle(state, Some(qty), fees, view, clock, now),
            Terminal::Open => match phase {
                Phase::RestEnd => Go::Wait { phase: Phase::RestFills, act: Act::ReadFills },
                _ => Go::Failed { why: Failure::NotOver },
            },
            Terminal::Unconfirmed => Go::Failed { why: Failure::EndUnconfirmed },
        },
        Event::Fills { qty } => match rest_step(state, fees, qty, view) {
            RestStep::Unreadable => Go::Failed { why: Failure::FillsUnread },
            RestStep::Keep => Go::Done { end: End::Kept },
            why => Go::Wait { phase: Phase::RestCancel, act: Act::Cancel { why } },
        },
        _ => Go::Wait { phase: Phase::RestGone, act: Act::ReadEnd { hedge: false } },
    }
}

/// Goes on while a hedge is looked after.
fn next_of_hedge(state: &mut State, phase: Phase, event: Event) -> (r: Go)
    requires
        waits(*old(state), phase),
        answers(event, phase),
        phase is HedgeSent || phase is HedgeIdentity || phase is HedgeEnd || phase is Prices
            || phase is Booking,
    ensures
        forall|last: u64, fees: FeeSchedule, view: Option<&EngineView>, now: u64| #[trigger]
            moved(*old(state), phase, event, *final(state), last, last, fees, view, now, r),
        r is Wait ==> waits(*final(state), r->phase),
        final(state).wf(),
{
    match event {
        Event::Sent { reply } => match hedge_reply(state, reply) {
            HedgeSent::Accepted => await_hedge(state),
            HedgeSent::Refused => Go::Failed { why: Failure::HedgeRefused },
            HedgeSent::Unknown => Go::Failed { why: Failure::HedgeUnknown },
        },
        Event::Recovered { answer } => match hedge_recovered(state, answer) {
            Recovery::Known => await_hedge(state),
            _ => Go::Failed { why: Failure::Unconfirmed { hedge: true } },
        },
        Event::End { answered } => match judge(state, true, answered) {
            Terminal::Over { qty } => if qty == 0 {
                close(state, 0)
            } else {
                Go::Wait { phase: Phase::Prices { got: qty }, act: Act::ReadPrices }
            },
            Terminal::Open => Go::Failed { why: Failure::HedgeNotOver },
            Terminal::Unconfirmed => Go::Failed { why: Failure::EndUnconfirmed },
        },
        Event::Priced { rest, close } => match phase {
            Phase::Prices { got } => price(state, got, &rest, &close),
            _ => Go::Failed { why: Failure::NotBooked },
        },
        Event::Booked { done } => match phase {
            Phase::Booking { got } => if done {
                close(state, got)
            } else {
                Go::Failed { why: Failure::NotBooked }
            },
            _ => Go::Failed { why: Failure::NotBooked },
        },
        _ => Go::Failed { why: Failure::NotBooked },
    }
}

/// Takes in what came of the last action of a pass, and says how it goes on.
pub fn next(
    state: &mut State,
    phase: Phase,
    event: Event,
    fees: &FeeSchedule,
    view: Option<&EngineView>,
    clock: &mut IdClock,
    now: u64,
) -> (r: Go)
    requires
        waits(*old(state), phase),
        answers(event, phase),
        fees.wf(),
        has_room(*old(state), *old(clock), now),
    ensures
        moved(
            *old(state),
            phase,
            event,
            *final(state),
            old(clock).last,
            final(clock).last,
            *fees,
            view,
            now,
            r,
        ),
        r is Wait ==> waits(*final(state), r->phase),
        final(state).wf(),
{
    match phase {
        Phase::RestIdentity
        | Phase::RestEnd
        | Phase::RestFills
        | Phase::RestCancel
        | Phase::RestGone => next_of_rest(state, phase, event, fees, view, clock, now),
        _ => next_of_hedge(state, phase, event),
    }
}

// --------------------------------------------------------------------- laws

/// No hedge goes out before the first order is over and its fills are known, and
/// one that goes out is for exactly what is still owed.
pub proof fn law_nothing_is_hedged_before_the_first_order_is_over(
    pre: State,
    phase: Phase,
    event: Event,
    post: State,
    last: u64,
    after: u64,
    fees: FeeSchedule,
    view: Option<&EngineView>,
    now: u64,
    go: Go,
)
    requires
        waits(pre, phase),
        moved(pre, phase, event, post, last, after, fees, view, now, go),
        go is Wait,
        go->act is Send,
    ensures
        post.active matches Some(a) && a.filled matches Some(f) && go->act->Send_req.qty == f
            - a.hedged,
        !(phase is RestFills || phase is RestCancel),
        (phase is RestEnd || phase is RestGone) ==> event->answered is Over,
{
}

/// A pass sends at most one hedge: nothing that follows the sending of one sends
/// another.
pub proof fn law_a_pass_sends_one_hedge(
    pre: State,
    phase: Phase,
    event: Event,
    post: State,
    last: u64,
    after: u64,
    fees: FeeSchedule,
    view: Option<&EngineView>,
    now: u64,
    go: Go,
)
    requires
        waits(pre, phase),
        moved(pre, phase, event, post, last, after, fees, view, now, go),
        phase is HedgeSent || phase is HedgeIdentity || phase is HedgeEnd || phase is Prices
            || phase is Booking,
    ensures
        go is Wait ==> go->act !is Send,
        go is Wait ==> (go->phase is HedgeEnd || go->phase is Prices || go->phase is Booking),
{
}

/// The lots of an order stay reserved until it never landed, filled nothing, or
/// all that it filled is closed; whatever else comes of a pass, they are kept.
pub proof fn law_lots_stay_reserved_until_they_are_free(
    pre: State,
    phase: Phase,
    event: Event,
    post: State,
    last: u64,
    after: u64,
    fees: FeeSchedule,
    view: Option<&EngineView>,
    now: u64,
    go: Go,
)
    requires
        waits(pre, phase),
        moved(pre, phase, event, post, last, after, fees, view, now, go),
        go is Done ==> go->end == End::Kept,
    ensures
        post.active is Some,
        post.active->0.lots() == pre.active->0.lots(),
        post.active->0.order == pre.active->0.order,
        post.reserves() == pre.reserves(),
{
}

/// The place of a phase in a pass.
pub open spec fn place_of(phase: Phase) -> nat {
    match phase {
        Phase::RestIdentity => 0,
        Phase::RestEnd => 1,
        Phase::RestFills => 2,
        Phase::RestCancel => 3,
        Phase::RestGone => 4,
        Phase::HedgeSent => 5,
        Phase::HedgeIdentity => 6,
        Phase::HedgeEnd => 7,
        Phase::Prices { .. } => 8,
        Phase::Booking { .. } => 9,
    }
}

/// A pass comes to an end: each step that goes on goes forward.
pub proof fn law_a_pass_ends(
    pre: State,
    phase: Phase,
    event: Event,
    post: State,
    last: u64,
    after: u64,
    fees: FeeSchedule,
    view: Option<&EngineView>,
    now: u64,
    go: Go,
)
    requires
        waits(pre, phase),
        moved(pre, phase, event, post, last, after, fees, view, now, go),
        go is Wait,
    ensures
        place_of(phase) < place_of(go->phase) <= 9,
{
}

} // verus!
