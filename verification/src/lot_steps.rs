//! The steps by which a lot's exit goes forward: its order is sent, followed to
//! its end, and what filled is hedged and booked. Each step takes what a venue
//! answered and says what to do next; a reservation is given up only on proof.
use crate::board::EngineView;
use crate::closing::{on_wire, pay_refusal, still_pays, PayRefusal, HEAL_PROFITABLE_CYCLES};
use crate::fees::FeeSchedule;
use crate::fills::{
    booked_at, filled_price_or_limit, plausible, plausible_pair_direction, OrderFill,
};
use crate::gauges::Gauges;
use crate::group::{
    aggregate, aggregated, allocate, law_a_group_reserves_its_lots, reserved, shared_out,
    with_quantity, GroupRefusal, ShareRefusal,
};
use crate::hedge::{
    cross_limit, cross_price, group_hedge_limit, group_price, hedge_sells, tradable, CrossRefusal,
    HedgeRefusal,
};
use crate::ids::{at_once, drawn, follows, id_text, next_id, next_number, IdClock};
use crate::keys::{law_the_oldest_lot_comes_first, oldest_first, sort_oldest_first};
use crate::lot::{asked_by, Active, Receipt, State, ABSENT_IS_PROOF_AFTER_US};
use crate::money::{px4, qty_ok, Px, QTY_MAX};
use crate::order::{by_venue, fills_by_venue, Order};
use crate::venue::{PlaceRequest, Venue};
use vstd::prelude::*;

verus! {

// ----------------------------------------------------------------- sending

/// Whether an answer proves that no order was accepted, of its status and of whether
/// it says that the market is halted.
pub open spec fn proves_refusal(status: Option<u16>, halted: bool) -> bool {
    halted || (status matches Some(s) && (s == 400 || s == 401 || s == 403 || s == 404 || s == 422
        || s == 429))
}

/// Whether a refusal proves that no order was accepted: the venue said so in
/// terms, or its market is halted. Anything else leaves the order in doubt.
pub fn rejected(status: Option<u16>, halted: bool) -> (r: bool)
    ensures
        r == proves_refusal(status, halted),
        r == (halted || (status matches Some(s) && (s == 400 || s == 401 || s == 403 || s == 404
            || s == 422 || s == 429))),
{
    halted || match status {
        Some(s) => s == 400 || s == 401 || s == 403 || s == 404 || s == 422 || s == 429,
        None => false,
    }
}

/// What came of sending an order.
#[derive(Debug)]
pub enum SendReply {
    Accepted { id: String },
    /// The venue refused it, so that there is no order.
    Rejected,
    /// Whether there is an order is not known.
    Unknown,
}

/// Whether a lot's reservation is a fresh one of a group.
pub open spec fn fresh(a: Active, o: Order, members: Seq<Order>) -> bool {
    &&& a.order == o
    &&& a.allocations@ == members
    &&& !a.regroup
    &&& a.rest.price@ == o.sent_at()@
    &&& a.rest.qty == o.qty
    &&& a.rest.client@ == id_text(a.rest.book_us as int)
    &&& a.rest.id is None
    &&& a.rest.allocation_us@.len() == 0
    &&& a.filled is None
    &&& a.hedged == 0
    &&& a.hedge is None
    &&& a.attempts == 0
}

/// Reserves lots for one order, the oldest first, and gives its request. The
/// reservation is to be kept before the order is sent. The lot must be the
/// oldest of them and have nothing under way.
pub fn reserve(state: &mut State, members: &Vec<Order>, clock: &mut IdClock, now: u64) -> (r: Result<
    PlaceRequest,
    GroupRefusal,
>)
    requires
        old(state).active is None,
        old(clock).last < u64::MAX,
        members@.len() > 0 ==> ({
            let first = oldest_first(members@)[0];
            first.rel_id@ == old(state).rel_id@ && first.closes_ts == old(state).opened_bits
        }),
        reserved(oldest_first(members@), members@.len()) <= QTY_MAX,
    ensures
        final(state).wf(),
        match aggregated(oldest_first(members@)) {
            Err(e) => {
                &&& r == Err::<PlaceRequest, GroupRefusal>(e)
                &&& *final(state) == *old(state)
                &&& *final(clock) == *old(clock)
            },
            Ok(o) => {
                &&& final(state).active is Some
                &&& r is Ok
                &&& fresh(final(state).active->0, o, oldest_first(members@))
                &&& final(state).active->0.rest.book_us == next_id(old(clock).last, now)
                &&& asked_by(r->Ok_0, final(state).active->0.rest, o, false)
                &&& *final(state) == (State { active: final(state).active, ..*old(state) })
                &&& final(clock).last == next_id(old(clock).last, now)
            },
        },
{
    let sorted: Vec<Order> = sort_oldest_first(members);
    proof {
        law_the_oldest_lot_comes_first(members@);
    }
    let order: Order = match aggregate(&sorted) {
        Err(e) => {
            return Err(e);
        },
        Ok(o) => o,
    };
    proof {
        law_a_group_reserves_its_lots(sorted@, order);
        lemma_group_is_tradable(sorted@, order);
    }
    let rest: Receipt = Receipt::new(clock, now, order.rest_limit().to_owned(), order.qty);
    let req: PlaceRequest = rest.request(&order, false);
    state.active = Some(
        Active {
            order,
            allocations: sorted,
            regroup: false,
            rest,
            filled: None,
            hedged: 0,
            hedge: None,
            attempts: 0,
        },
    );
    Ok(req)
}

proof fn lemma_member_bound(members: Seq<Order>, i: int, n: nat)
    requires
        with_quantity(members),
        0 <= i < n <= members.len(),
    ensures
        members[i].qty <= reserved(members, n),
    decreases n,
{
    reveal_with_fuel(reserved, 2);
    assert(members[n - 1].qty >= 1);
    if i == n - 1 {
        if n > 1 {
            assert(members[0].qty >= 1);
            lemma_member_bound(members, 0, (n - 1) as nat);
        }
    } else {
        lemma_member_bound(members, i, (n - 1) as nat);
    }
}

proof fn lemma_group_is_tradable(members: Seq<Order>, o: Order)
    requires
        aggregated(members) == Ok::<Order, GroupRefusal>(o),
        o.qty <= QTY_MAX,
    ensures
        tradable(members),
{
    law_a_group_reserves_its_lots(members, o);
    assert forall|i: int| 0 <= i < members.len() implies qty_ok((#[trigger] members[i]).qty) by {
        lemma_member_bound(members, i, members.len());
    }
}

/// What a first order came to.
#[derive(Clone, Copy, Debug, PartialEq, Eq, Structural)]
pub enum Placed {
    /// It is at the venue.
    Accepted,
    /// It was refused; the lots are free.
    Released,
    /// Whether it is there is not known; the lots stay reserved, and new exits
    /// stop.
    Retained,
}

/// Takes in what came of sending the first order.
pub fn place_reply(state: &mut State, gauges: &mut Gauges, reply: SendReply) -> (r: Placed)
    requires
        old(state).wf(),
        old(state).active is Some,
    ensures
        final(state).wf(),
        ({
            let a = old(state).active->0;
            match reply {
                SendReply::Accepted { id } => {
                    &&& r == Placed::Accepted
                    &&& *final(state) == (State {
                        active: Some(Active { rest: Receipt { id: Some(id), ..a.rest }, ..a }),
                        ..*old(state)
                    })
                    &&& *final(gauges) == old(gauges).plus_placed()
                },
                SendReply::Rejected => {
                    &&& r == Placed::Released
                    &&& *final(state) == (State { active: None, ..*old(state) })
                    &&& *final(gauges) == *old(gauges)
                },
                SendReply::Unknown => {
                    &&& r == Placed::Retained
                    &&& *final(state) == (State { latched: true, ..*old(state) })
                    &&& *final(gauges) == *old(gauges)
                },
            }
        }),
{
    match reply {
        SendReply::Accepted { id } => {
            if let Some(mut a) = state.active.take() {
                a.rest.id = Some(id);
                state.active = Some(a);
            }
            gauges.note_placed();
            Placed::Accepted
        },
        SendReply::Rejected => {
            state.active = None;
            Placed::Released
        },
        SendReply::Unknown => {
            let _ = state.latch();
            Placed::Retained
        },
    }
}

// ---------------------------------------------------------------- recovery

/// What is known of an order's identity.
#[derive(Debug)]
pub enum Identity {
    Known,
    /// PM-US has no id of ours on its orders, so that one whose answer was lost
    /// cannot be told from another lot's.
    Lost,
    /// Ask Kalshi for the order of this request.
    Ask { req: PlaceRequest },
}

/// What is known of the identity of an order.
pub fn identity(rc: &Receipt, o: &Order, hedge: bool) -> (r: Identity)
    ensures
        ({
            let venue = if hedge {
                o.shape.closes_at()
            } else {
                o.shape.rests_at()
            };
            if rc.id is Some {
                r is Known
            } else if venue == Venue::PolymarketUs {
                r is Lost
            } else {
                r matches Identity::Ask { req } && asked_by(req, *rc, *o, hedge)
            }
        }),
{
    if rc.id.is_some() {
        return Identity::Known;
    }
    let venue: Venue = if hedge {
        o.shape.close_venue()
    } else {
        o.shape.rest_venue()
    };
    if venue == Venue::PolymarketUs {
        return Identity::Lost;
    }
    Identity::Ask { req: rc.request(o, hedge) }
}

/// What Kalshi answered about an order of ours.
#[derive(Debug)]
pub enum RecoverReply {
    Found { id: String },
    /// No order carries the id.
    Absent,
    Unclear,
}

/// What the answer comes to.
#[derive(Clone, Copy, Debug, PartialEq, Eq, Structural)]
pub enum Recovery {
    Known,
    /// The order never landed.
    NeverLanded,
    /// Nothing is known, and nothing may be sent in its place.
    Unconfirmed,
}

/// Whether an order's absence is proof that it never landed.
pub open spec fn absence_is_proof(book_us: u64, now: u64) -> bool {
    now - book_us > ABSENT_IS_PROOF_AFTER_US
}

/// Takes in what Kalshi answered about the first order. Only long after it was
/// sent is its absence proof that it never landed; then its lots are free.
pub fn rest_recovered(state: &mut State, reply: RecoverReply, now: u64) -> (r: Recovery)
    requires
        old(state).wf(),
        old(state).active is Some,
    ensures
        final(state).wf(),
        ({
            let a = old(state).active->0;
            match reply {
                RecoverReply::Found { id } => {
                    &&& r == Recovery::Known
                    &&& *final(state) == (State {
                        active: Some(Active { rest: Receipt { id: Some(id), ..a.rest }, ..a }),
                        ..*old(state)
                    })
                },
                RecoverReply::Absent => if absence_is_proof(a.rest.book_us, now) {
                    &&& r == Recovery::NeverLanded
                    &&& *final(state) == (State { active: None, ..*old(state) })
                } else {
                    &&& r == Recovery::Unconfirmed
                    &&& *final(state) == *old(state)
                },
                RecoverReply::Unclear => {
                    &&& r == Recovery::Unconfirmed
                    &&& *final(state) == *old(state)
                },
            }
        }),
{
    match reply {
        RecoverReply::Found { id } => {
            if let Some(mut a) = state.active.take() {
                a.rest.id = Some(id);
                state.active = Some(a);
            }
            Recovery::Known
        },
        RecoverReply::Absent => {
            let gone: bool = match &state.active {
                Some(a) => now > a.rest.book_us && now - a.rest.book_us > ABSENT_IS_PROOF_AFTER_US,
                None => false,
            };
            if gone {
                state.active = None;
                Recovery::NeverLanded
            } else {
                Recovery::Unconfirmed
            }
        },
        RecoverReply::Unclear => Recovery::Unconfirmed,
    }
}

/// Takes in what Kalshi answered about a hedge. Its absence is never proof: the
/// first leg has filled, and giving the hedge up could close it twice.
pub fn hedge_recovered(state: &mut State, reply: RecoverReply) -> (r: Recovery)
    requires
        old(state).wf(),
        old(state).active matches Some(a) && a.hedge is Some,
    ensures
        final(state).wf(),
        ({
            let a = old(state).active->0;
            let h = a.hedge->0;
            match reply {
                RecoverReply::Found { id } => {
                    &&& r == Recovery::Known
                    &&& *final(state) == (State {
                        active: Some(
                            Active { hedge: Some(Receipt { id: Some(id), ..h }), ..a },
                        ),
                        ..*old(state)
                    })
                },
                _ => {
                    &&& r == Recovery::Unconfirmed
                    &&& *final(state) == *old(state)
                },
            }
        }),
{
    match reply {
        RecoverReply::Found { id } => {
            if let Some(mut a) = state.active.take() {
                if let Some(mut h) = a.hedge.take() {
                    h.id = Some(id);
                    a.hedge = Some(h);
                }
                state.active = Some(a);
            }
            Recovery::Known
        },
        _ => Recovery::Unconfirmed,
    }
}

// ----------------------------------------------------------- terminal proof

/// What a venue answered about the end of an order.
#[derive(Clone, Copy, Debug, PartialEq, Eq, Structural)]
pub enum TerminalReply {
    /// It is over, with this many filled.
    Over { qty: i64 },
    Open,
    Unreadable,
}

/// What the answer comes to.
#[derive(Clone, Copy, Debug, PartialEq, Eq, Structural)]
pub enum Terminal {
    Over { qty: i64 },
    Open,
    /// The count cannot be read, or cannot be right.
    Unconfirmed,
}

/// Whether an order is over: a count is believed only within what was ordered.
pub fn terminal(rc: &Receipt, reply: TerminalReply) -> (r: Terminal)
    ensures
        r == (match reply {
            TerminalReply::Over { qty } => if 0 <= qty <= rc.qty {
                Terminal::Over { qty }
            } else {
                Terminal::Unconfirmed
            },
            TerminalReply::Open => Terminal::Open,
            TerminalReply::Unreadable => Terminal::Unconfirmed,
        }),
{
    match reply {
        TerminalReply::Over { qty } => if 0 <= qty && qty <= rc.qty {
            Terminal::Over { qty }
        } else {
            Terminal::Unconfirmed
        },
        TerminalReply::Open => Terminal::Open,
        TerminalReply::Unreadable => Terminal::Unconfirmed,
    }
}

// ------------------------------------------------------------ while it rests

/// What to do about an order that rests.
#[derive(Clone, Copy, Debug, PartialEq, Eq, Structural)]
pub enum RestStep {
    /// Its fills cannot be read, or cannot be right.
    Unreadable,
    /// It has not filled, and pays.
    Keep,
    /// It filled, crosses, or is to rest again with others: cancel it.
    Cancel,
    /// There is no view to hold it against: cancel it.
    PullDark,
    /// The order at this place, of its lots and then itself, pays no more:
    /// cancel it.
    Pull { at: usize, why: PayRefusal },
}

/// The first of some orders that pays no more.
pub open spec fn first_stale(fees: FeeSchedule, orders: Seq<Order>, view: EngineView, from: int) -> Option<
    (int, PayRefusal),
>
    decreases orders.len() - from,
{
    if from < 0 || from >= orders.len() {
        None
    } else {
        match pay_refusal(fees, orders[from], view) {
            Some(e) => Some((from, e)),
            None => first_stale(fees, orders, view, from + 1),
        }
    }
}

/// What to do about an order that rests, of how much of it has filled.
pub open spec fn rest_plan(
    fees: FeeSchedule,
    a: Active,
    filled: Option<i64>,
    view: Option<&EngineView>,
) -> RestStep {
    match filled {
        None => RestStep::Unreadable,
        Some(n) => if n < 0 || n > a.order.qty {
            RestStep::Unreadable
        } else if a.regroup || a.order.cross is Some || n != 0 {
            RestStep::Cancel
        } else {
            match view {
                None => RestStep::PullDark,
                Some(v) => match first_stale(fees, a.lots().push(a.order), *v, 0) {
                    Some((at, why)) => RestStep::Pull { at: at as usize, why },
                    None => RestStep::Keep,
                },
            }
        },
    }
}

/// What to do about an order that rests and is not over. Each lot must still pay
/// at its own basis, and so must the order for the quantity of all. An order
/// that is kept stops no new exits.
pub fn rest_step(
    state: &mut State,
    fees: &FeeSchedule,
    filled: Option<i64>,
    view: Option<&EngineView>,
) -> (r: RestStep)
    requires
        old(state).wf(),
        old(state).active is Some,
        fees.wf(),
    ensures
        final(state).wf(),
        r == rest_plan(*fees, old(state).active->0, filled, view),
        *final(state) == (if r is Keep {
            State { latched: false, ..*old(state) }
        } else {
            *old(state)
        }),
{
    let r: RestStep = match &state.active {
        None => RestStep::Unreadable,
        Some(a) => plan_rest(fees, a, filled, view),
    };
    if let RestStep::Keep = r {
        let _ = state.unlatch();
    }
    r
}

fn plan_rest(
    fees: &FeeSchedule,
    a: &Active,
    filled: Option<i64>,
    view: Option<&EngineView>,
) -> (r: RestStep)
    requires
        a.wf(),
        fees.wf(),
    ensures
        r == rest_plan(*fees, *a, filled, view),
{
    let n: i64 = match filled {
        None => {
            return RestStep::Unreadable;
        },
        Some(n) => n,
    };
    if n < 0 || n > a.order.qty {
        return RestStep::Unreadable;
    }
    if a.regroup || a.order.cross.is_some() || n != 0 {
        return RestStep::Cancel;
    }
    let v: &EngineView = match view {
        None => {
            return RestStep::PullDark;
        },
        Some(v) => v,
    };
    let mut orders: Vec<Order> = a.members();
    orders.push(a.order.clone());
    assert(orders@ =~= a.lots().push(a.order));
    assert forall|i: int| 0 <= i < orders@.len() implies qty_ok((#[trigger] orders@[i]).qty) by {
        if i < a.lots().len() {
            assert(qty_ok(a.lots()[i].qty));
        }
    }
    match find_stale(fees, &orders, v) {
        Some((at, why)) => RestStep::Pull { at, why },
        None => RestStep::Keep,
    }
}

/// The first of some orders that pays no more.
fn find_stale(fees: &FeeSchedule, orders: &Vec<Order>, view: &EngineView) -> (r: Option<
    (usize, PayRefusal),
>)
    requires
        fees.wf(),
        forall|i: int| 0 <= i < orders@.len() ==> qty_ok((#[trigger] orders@[i]).qty),
    ensures
        match first_stale(*fees, orders@, *view, 0) {
            Some((at, why)) => r == Some((at as usize, why)) && 0 <= at < orders@.len(),
            None => r is None,
        },
{
    let mut i: usize = 0;
    while i < orders.len()
        invariant
            i <= orders.len(),
            fees.wf(),
            forall|i: int| 0 <= i < orders@.len() ==> qty_ok((#[trigger] orders@[i]).qty),
            first_stale(*fees, orders@, *view, 0) == first_stale(*fees, orders@, *view, i as int),
        decreases orders.len() - i,
    {
        match pays(fees, &orders[i], view) {
            Some(why) => {
                return Some((i, why));
            },
            None => {},
        }
        i = i + 1;
    }
    None
}

fn pays(fees: &FeeSchedule, o: &Order, view: &EngineView) -> (r: Option<PayRefusal>)
    requires
        fees.wf(),
        qty_ok(o.qty),
    ensures
        r == pay_refusal(*fees, *o, *view),
{
    match still_pays(fees, o, view) {
        Ok(()) => None,
        Err(e) => Some(e),
    }
}

/// What follows once the first order is over.
#[derive(Clone, Copy, Debug, PartialEq, Eq, Structural)]
pub enum AfterRest {
    /// It is not over yet; its lots stay reserved.
    NotOver,
    /// It filled nothing; its lots are free.
    NothingFilled,
    /// All that filled is closed; its lots are free.
    AllClosed,
    /// So many contracts are owed.
    Owes { qty: i64 },
}

/// Takes in what the first order filled, once it is over; a count that is known
/// already stands.
pub fn rest_settle(state: &mut State, over: Option<i64>) -> (r: AfterRest)
    requires
        old(state).wf(),
        old(state).active is Some,
        over matches Some(n) ==> 0 <= n <= old(state).active->0.order.qty,
    ensures
        final(state).wf(),
        ({
            let a = old(state).active->0;
            let filled = if a.filled is Some {
                a.filled
            } else {
                over
            };
            match filled {
                None => r == AfterRest::NotOver && *final(state) == *old(state),
                Some(f) => if f == 0 {
                    &&& r == AfterRest::NothingFilled
                    &&& *final(state) == (State { active: None, ..*old(state) })
                } else if a.hedged == f {
                    &&& r == AfterRest::AllClosed
                    &&& *final(state) == (State { active: None, ..*old(state) })
                } else {
                    &&& r == (AfterRest::Owes { qty: (f - a.hedged) as i64 })
                    &&& *final(state) == (State {
                        active: Some(Active { filled: Some(f), ..a }),
                        ..*old(state)
                    })
                },
            }
        }),
{
    match state.active.take() {
        None => AfterRest::NotOver,
        Some(mut a) => {
            if a.filled.is_none() {
                a.filled = over;
            }
            match a.filled {
                None => {
                    state.active = Some(a);
                    AfterRest::NotOver
                },
                Some(f) => {
                    if f == 0 {
                        AfterRest::NothingFilled
                    } else if a.hedged == f {
                        AfterRest::AllClosed
                    } else {
                        let owed: i64 = f - a.hedged;
                        state.active = Some(a);
                        AfterRest::Owes { qty: owed }
                    }
                },
            }
        },
    }
}

// ----------------------------------------------------------------- hedging

/// What to do about what is owed.
#[derive(Debug)]
pub enum HedgeStep {
    /// A hedge is out already: none is sent until it is proved over.
    Await,
    /// There is no fresh view to price it by.
    NoView,
    /// It does not pay yet.
    Waits { because: HedgeRefusal },
    /// It is to be crossed out, and cannot be.
    Stuck { why: CrossRefusal },
    Send { req: PlaceRequest },
}

/// One more attempt.
pub open spec fn tried(attempts: u32) -> u32 {
    if attempts < u32::MAX {
        (attempts + 1) as u32
    } else {
        attempts
    }
}

/// The price of a hedge for what is owed at this attempt: one that pays, and past
/// the attempts in which it must, one at which it trades.
pub open spec fn hedge_plan(
    fees: FeeSchedule,
    a: Active,
    attempts: u32,
    view: EngineView,
) -> Result<Px, Result<HedgeRefusal, CrossRefusal>> {
    let owed = (a.filled->0 - a.hedged) as i64;
    match group_price(fees, a.lots(), a.hedged, owed, hedge_sells(a.order), view) {
        Ok(p) => Ok(p),
        Err(why) => if attempts <= HEAL_PROFITABLE_CYCLES {
            Err(Ok(why))
        } else {
            match cross_price(a.order, view) {
                Ok(p) => Ok(p),
                Err(e) => Err(Err(e)),
            }
        },
    }
}

/// Fresh numbers, one for each lot, handed out in a row.
fn booking_numbers(clock: &mut IdClock, now: u64, n: usize) -> (r: Vec<u64>)
    requires
        old(clock).last < now ==> now + n <= u64::MAX,
        old(clock).last + n <= u64::MAX,
    ensures
        r@.len() == n,
        drawn(r@, old(clock).last, at_once(now, n as nat)),
        final(clock).last == (if n == 0 {
            old(clock).last
        } else {
            r@.last()
        }),
{
    let ghost start = clock.last;
    let mut v: Vec<u64> = Vec::new();
    let mut i: usize = 0;
    while i < n
        invariant
            i <= n,
            v@.len() == i,
            start + n <= u64::MAX,
            start < now ==> now + n <= u64::MAX,
            forall|k: int| 0 <= k < i ==> #[trigger] follows(v@, start, at_once(now, n as nat), k),
            i == 0 ==> clock.last == start,
            i > 0 ==> clock.last == v@[i - 1],
            clock.last <= (if now > start {
                now
            } else {
                start
            }) + i,
        decreases n - i,
    {
        let ghost was = v@;
        let k: u64 = next_number(clock, now);
        v.push(k);
        proof {
            assert forall|j: int| 0 <= j < i + 1 implies #[trigger] follows(
                v@,
                start,
                at_once(now, n as nat),
                j,
            ) by {
                if j < i {
                    assert(follows(was, start, at_once(now, n as nat), j));
                }
            }
        }
        i = i + 1;
    }
    v
}

/// A hedge that was just made out: the numbers of its order and of its lots' bookings are the next that the
/// clock hands out at `now`, and the clock stands at the last of them after.
pub open spec fn made_out(
    h: Receipt,
    price: Px,
    owed: int,
    lots: nat,
    last: u64,
    now: u64,
    after: u64,
) -> bool {
    &&& h.id is None
    &&& h.price@ == on_wire(price)
    &&& h.qty == owed
    &&& h.book_us == next_id(last, now)
    &&& h.client@ == id_text(h.book_us as int)
    &&& h.allocation_us@.len() == lots
    &&& drawn(h.allocation_us@, h.book_us, at_once(now, lots))
    &&& after == h.allocation_us@.last()
}

/// Makes a hedge out for exactly what is owed, unless one is out already. It is
/// to be kept before it is sent.
pub fn hedge_step(
    state: &mut State,
    fees: &FeeSchedule,
    view: Option<&EngineView>,
    clock: &mut IdClock,
    now: u64,
) -> (r: HedgeStep)
    requires
        old(state).wf(),
        old(state).active matches Some(a) && a.filled matches Some(f) && a.hedged < f,
        fees.wf(),
        old(clock).last + old(state).active->0.lots().len() + 1 < u64::MAX,
        now + old(state).active->0.lots().len() + 1 < u64::MAX,
    ensures
        final(state).wf(),
        ({
            let a = old(state).active->0;
            let owed = a.filled->0 - a.hedged;
            if a.hedge is Some {
                r is Await && *final(state) == *old(state) && *final(clock) == *old(clock)
            } else {
                match view {
                    None => r is NoView && *final(state) == *old(state) && *final(clock) == *old(
                        clock,
                    ),
                    Some(v) => match hedge_plan(*fees, a, tried(a.attempts), *v) {
                        Ok(p) => {
                            let b = final(state).active->0;
                            &&& final(state).active is Some
                            &&& b.hedge is Some
                            &&& b == (Active { attempts: tried(a.attempts), hedge: b.hedge, ..a })
                            &&& made_out(
                                b.hedge->0,
                                p,
                                owed,
                                a.lots().len(),
                                old(clock).last,
                                now,
                                final(clock).last,
                            )
                            &&& r matches HedgeStep::Send { req } && asked_by(
                                req,
                                b.hedge->0,
                                a.order,
                                true,
                            )
                            &&& *final(state) == (State {
                                active: final(state).active,
                                ..*old(state)
                            })
                        },
                        Err(why) => {
                            &&& match why {
                                Ok(e) => r == (HedgeStep::Waits { because: e }),
                                Err(e) => r == (HedgeStep::Stuck { why: e }),
                            }
                            &&& *final(state) == (State {
                                active: Some(Active { attempts: tried(a.attempts), ..a }),
                                ..*old(state)
                            })
                            &&& *final(clock) == *old(clock)
                        },
                    },
                }
            }
        }),
{
    let mut a: Active = match state.active.take() {
        None => {
            return HedgeStep::Await;
        },
        Some(a) => a,
    };
    if a.hedge.is_some() {
        state.active = Some(a);
        return HedgeStep::Await;
    }
    let v: &EngineView = match view {
        None => {
            state.active = Some(a);
            return HedgeStep::NoView;
        },
        Some(v) => v,
    };
    let filled: i64 = match a.filled {
        Some(f) => f,
        None => 0,
    };
    let owed: i64 = filled - a.hedged;
    if a.attempts < u32::MAX {
        a.attempts = a.attempts + 1;
    }
    let lots: Vec<Order> = a.members();
    let selling: bool = a.order.direction.sells(a.order.shape.close_venue());
    let price: Px = match group_hedge_limit(fees, &lots, a.hedged, owed, selling, v) {
        Ok(p) => p,
        Err(why) => {
            if a.attempts <= HEAL_PROFITABLE_CYCLES {
                state.active = Some(a);
                return HedgeStep::Waits { because: why };
            }
            match cross_limit(&a.order, v) {
                Ok(p) => p,
                Err(e) => {
                    state.active = Some(a);
                    return HedgeStep::Stuck { why: e };
                },
            }
        },
    };
    let mut h: Receipt = Receipt::new(clock, now, px4(price), owed);
    h.allocation_us = booking_numbers(clock, now, lots.len());
    let req: PlaceRequest = h.request(&a.order, true);
    a.hedge = Some(h);
    state.active = Some(a);
    HedgeStep::Send { req }
}

/// What came of a hedge that was sent.
#[derive(Clone, Copy, Debug, PartialEq, Eq, Structural)]
pub enum HedgeSent {
    Accepted,
    /// It was refused; another may be made out.
    Refused,
    /// Whether it is there is not known; none is sent in its place.
    Unknown,
}

/// Takes in what came of sending a hedge.
pub fn hedge_reply(state: &mut State, reply: SendReply) -> (r: HedgeSent)
    requires
        old(state).wf(),
        old(state).active matches Some(a) && a.hedge is Some,
    ensures
        final(state).wf(),
        ({
            let a = old(state).active->0;
            let h = a.hedge->0;
            match reply {
                SendReply::Accepted { id } => {
                    &&& r == HedgeSent::Accepted
                    &&& *final(state) == (State {
                        active: Some(
                            Active { hedge: Some(Receipt { id: Some(id), ..h }), ..a },
                        ),
                        ..*old(state)
                    })
                },
                SendReply::Rejected => {
                    &&& r == HedgeSent::Refused
                    &&& *final(state) == (State {
                        active: Some(Active { hedge: None, ..a }),
                        ..*old(state)
                    })
                },
                SendReply::Unknown => {
                    &&& r == HedgeSent::Unknown
                    &&& *final(state) == *old(state)
                },
            }
        }),
{
    match reply {
        SendReply::Accepted { id } => {
            if let Some(mut a) = state.active.take() {
                if let Some(mut h) = a.hedge.take() {
                    h.id = Some(id);
                    a.hedge = Some(h);
                }
                state.active = Some(a);
            }
            HedgeSent::Accepted
        },
        SendReply::Rejected => {
            if let Some(mut a) = state.active.take() {
                a.hedge = None;
                state.active = Some(a);
            }
            HedgeSent::Refused
        },
        SendReply::Unknown => HedgeSent::Unknown,
    }
}

// ----------------------------------------------------------------- booking

/// The prices at which a hedge is booked: what the venues say where the two are
/// plausible together, and else the prices that were sent.
pub open spec fn lot_prices(
    o: Order,
    rest: Seq<char>,
    close: Seq<char>,
    rest_fill: Option<OrderFill>,
    close_fill: Option<OrderFill>,
) -> (Seq<char>, Seq<char>) {
    let r = booked_at(rest_fill, rest, o.direction.sells_at(o.shape.rests_at()));
    let c = booked_at(close_fill, close, o.direction.sells_at(o.shape.closes_at()));
    let (k, pm) = by_venue(o.shape, r, c);
    if plausible(o.direction, k, pm) {
        (r, c)
    } else {
        (rest, close)
    }
}

/// The prices at which a hedge is booked, that of the first leg first.
pub fn booked_prices(
    o: &Order,
    rest: &str,
    close: &str,
    rest_fill: &Option<OrderFill>,
    close_fill: &Option<OrderFill>,
) -> (r: (String, String))
    ensures
        (r.0@, r.1@) == lot_prices(*o, rest@, close@, *rest_fill, *close_fill),
{
    let rp: String = filled_price_or_limit(
        rest_fill,
        rest,
        o.direction.sells(o.shape.rest_venue()),
    );
    let cp: String = filled_price_or_limit(
        close_fill,
        close,
        o.direction.sells(o.shape.close_venue()),
    );
    let (k, pm): (&str, &str) = fills_by_venue(o, rp.as_str(), cp.as_str());
    if plausible_pair_direction(o.direction, k, pm) {
        (rp, cp)
    } else {
        (rest.to_owned(), close.to_owned())
    }
}

/// Why what a hedge closed cannot be booked.
#[derive(Clone, Copy, Debug, PartialEq, Eq, Structural)]
pub enum BookRefusal {
    Share(ShareRefusal),
    /// A lot has no number to be booked under.
    NoNumber,
}

impl BookRefusal {
    pub open spec fn message(self) -> Seq<char> {
        match self {
            BookRefusal::Share(e) => e.message(),
            BookRefusal::NoNumber => "missing allocation booking key"@,
        }
    }

    /// The refusal in words.
    pub fn text(&self) -> (r: String)
        ensures
            r@ == self.message(),
    {
        match self {
            BookRefusal::Share(e) => e.text(),
            BookRefusal::NoNumber => "missing allocation booking key".to_owned(),
        }
    }
}

/// The number under which the lot at `i` is booked.
pub open spec fn number_of(h: Receipt, lots: nat, i: int) -> Option<u64> {
    if h.allocation_us@.len() == 0 && lots == 1 {
        Some(h.book_us)
    } else if i < h.allocation_us@.len() {
        Some(h.allocation_us@[i])
    } else {
        None
    }
}

/// What to book for what a hedge closed: of each lot that it reached, oldest
/// first, its own share and the number to book it under. The numbers were taken
/// before the hedge was sent, so booking again after a stop books nothing twice.
pub fn bookings(a: &Active, got: i64) -> (r: Result<Vec<(Order, u64)>, BookRefusal>)
    requires
        a.wf(),
        a.hedge matches Some(h) && 0 <= got <= h.qty,
    ensures
        ({
            let h = a.hedge->0;
            let (from, to) = (a.hedged as int, a.hedged + got);
            let n = a.lots().len();
            let at = crate::group::sharers(a.lots(), from, to, n);
            if exists|k: int|
                0 <= k < at.len() && number_of(h, n, #[trigger] at[k]) is None {
                r == Err::<Vec<(Order, u64)>, BookRefusal>(BookRefusal::NoNumber)
            } else {
                r matches Ok(v) && v@.len() == at.len() && forall|k: int|
                    0 <= k < at.len() ==> {
                        &&& (#[trigger] v@[k]).0 == crate::hedge::part_of(a.lots(), at[k], from, to)
                        &&& number_of(h, n, at[k]) == Some(v@[k].1)
                    }
            }
        }),
{
    let lots: Vec<Order> = a.members();
    let ghost (from, to) = (a.hedged as int, a.hedged + got);
    let ghost n = a.lots().len();
    let ghost at = crate::group::sharers(a.lots(), from, to, n);
    let mut parts: Vec<(usize, Order)> = match allocate(&lots, a.hedged, got) {
        Err(e) => {
            return Err(BookRefusal::Share(e));
        },
        Ok(p) => p,
    };
    let h: &Receipt = match &a.hedge {
        Some(h) => h,
        None => {
            return Err(BookRefusal::NoNumber);
        },
    };
    let mut out: Vec<(Order, u64)> = Vec::new();
    let mut k: usize = 0;
    while k < parts.len()
        invariant
            k <= parts.len(),
            out@.len() == k,
            from == a.hedged,
            to == a.hedged + got,
            lots@ == a.lots(),
            n == a.lots().len(),
            a.hedge == Some(*h),
            at == crate::group::sharers(a.lots(), from, to, n),
            shared_out(parts@, a.lots(), from, to, n),
            forall|j: int|
                0 <= j < k ==> {
                    &&& (#[trigger] out@[j]).0 == crate::hedge::part_of(a.lots(), at[j], from, to)
                    &&& number_of(*h, n, at[j]) == Some(out@[j].1)
                },
        decreases parts.len() - k,
    {
        let i: usize = parts[k].0;
        assert(i == at[k as int]);
        let number: u64 = if h.allocation_us.len() == 0 && lots.len() == 1 {
            h.book_us
        } else if i < h.allocation_us.len() {
            h.allocation_us[i]
        } else {
            assert(number_of(*h, n, at[k as int]) is None);
            return Err(BookRefusal::NoNumber);
        };
        out.push((parts[k].1.clone(), number));
        k = k + 1;
    }
    proof {
        assert forall|j: int| 0 <= j < at.len() implies number_of(*h, n, #[trigger] at[j])
            is Some by {
            assert(number_of(*h, n, at[j]) == Some(out@[j].1));
        }
    }
    Ok(out)
}

/// What a hedge that is over leaves.
#[derive(Clone, Copy, Debug, PartialEq, Eq, Structural)]
pub enum HedgeDone {
    /// All that filled is closed; the lots are free.
    AllClosed,
    /// So many contracts are still owed.
    Owes { qty: i64 },
}

/// Takes in what a hedge closed, once that is booked.
pub fn hedge_settle(state: &mut State, got: i64) -> (r: HedgeDone)
    requires
        old(state).wf(),
        old(state).active matches Some(a) && a.hedge matches Some(h) && 0 <= got <= h.qty,
    ensures
        final(state).wf(),
        ({
            let a = old(state).active->0;
            let owed = a.filled->0 - a.hedged - got;
            if owed == 0 {
                &&& r == HedgeDone::AllClosed
                &&& *final(state) == (State { active: None, ..*old(state) })
            } else {
                &&& r == (HedgeDone::Owes { qty: owed as i64 })
                &&& *final(state) == (State {
                    active: Some(Active { hedged: (a.hedged + got) as i64, hedge: None, ..a }),
                    ..*old(state)
                })
            }
        }),
{
    match state.active.take() {
        None => HedgeDone::AllClosed,
        Some(mut a) => {
            a.hedged = a.hedged + got;
            a.hedge = None;
            let filled: i64 = match a.filled {
                Some(f) => f,
                None => 0,
            };
            if a.hedged == filled {
                HedgeDone::AllClosed
            } else {
                let owed: i64 = filled - a.hedged;
                state.active = Some(a);
                HedgeDone::Owes { qty: owed }
            }
        },
    }
}

/// Whether a lot stops new exits once a pass over it has ended.
pub open spec fn stops(s: State, failed: bool) -> bool {
    s.active is Some && (failed || s.latched)
}

/// Ends a pass over a lot: one that failed stops new exits, and one with nothing
/// under way stops none. Says whether the stop is new, and whether it was lifted.
pub fn conclude(state: &mut State, failed: bool) -> (r: (bool, bool))
    ensures
        final(state).latched == stops(*old(state), failed),
        r.0 == (failed && !old(state).latched),
        r.1 == (old(state).active is None && (failed || old(state).latched)),
        *final(state) == (State {
            latched: old(state).active is Some && (failed || old(state).latched),
            ..*old(state)
        }),
{
    let set: bool = if failed {
        state.latch()
    } else {
        false
    };
    let lifted: bool = if !state.busy() {
        state.unlatch()
    } else {
        false
    };
    (set, lifted)
}

// --------------------------------------------------------------------- laws

/// A hedge is priced for exactly what is owed, which is at least one contract
/// and never more than the order reserved.
pub proof fn law_a_hedge_is_for_what_is_owed(a: Active)
    requires
        a.wf(),
        a.hedge is Some,
    ensures
        a.filled is Some,
        1 <= a.hedge->0.qty <= a.order.qty,
        a.hedge->0.qty + a.hedged == a.filled->0,
        a.filled->0 <= reserved(a.lots(), a.lots().len()),
{
}

/// Once the attempts at a price that pays are over, a hedge is sent as long as
/// there is a book to cross.
pub proof fn law_a_hedge_is_crossed_out_in_the_end(
    fees: FeeSchedule,
    a: Active,
    attempts: u32,
    view: EngineView,
)
    requires
        attempts > HEAL_PROFITABLE_CYCLES,
        cross_price(a.order, view) is Ok,
    ensures
        hedge_plan(fees, a, attempts, view) is Ok,
{
}

} // verus!
