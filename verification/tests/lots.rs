//! Lots that rest together, fill oldest first, and are hedged for what filled.
use arb_trader::advance::{next, start, Act, Event, Failure, Go};
use arb_trader::batch::{
    claim, group_step, groups, incumbents, lot_step, reservations, GroupStep, LotStep,
};
use arb_trader::board::EngineView;
use arb_trader::decide::Exit;
use arb_trader::fees::FeeSchedule;
use arb_trader::gauges::Gauges;
use arb_trader::group::{aggregate, allocate, GroupRefusal, ShareRefusal};
use arb_trader::hedge::{cross_limit, group_hedge_limit, hedge_limit, mirror_ladder, CrossRefusal};
use arb_trader::ids::{client_order_id, IdClock};
use arb_trader::keys::{group_key, hex, is_older, lot_key};
use arb_trader::ladder::Rung;
use arb_trader::lines;
use arb_trader::lot::{
    check_loaded, close_depth_key, placed_at, Active, LoadRefusal, Receipt, State,
    ABSENT_IS_PROOF_AFTER_US,
};
use arb_trader::lot_steps::{
    conclude, place_reply, rejected, reserve, Placed, RecoverReply, RestStep, SendReply,
    TerminalReply,
};
use arb_trader::order::{Cross, Order};
use arb_trader::record::close_record;
use arb_trader::venue::{Direction, PlaceRequest, Role, Shape, Side, Tif};
use sha2::{Digest, Sha256};
use std::collections::{BTreeSet, VecDeque};

/// A time of day in microseconds.
const WALL: u64 = 1_784_646_659_716_000;

fn pair(a: &str, b: &str) -> (String, String) {
    (a.to_string(), b.to_string())
}

fn view(pm_ask: &str) -> EngineView {
    EngineView {
        apr_bar: 16_000_000,
        global_cap_usd: 500_000_000,
        pm_ask: vec![pair("p-a", pm_ask)],
        pm_bid: vec![pair("p-a", "0.1900")],
        k_bid: vec![pair("K-a", "0.2000")],
        k_ask: Vec::new(),
        k_ladder: Vec::new(),
        depth: Vec::new(),
        suppressed_at: Vec::new(),
    }
}

fn member(ts: f64, qty: i64) -> Order {
    Order {
        rel_id: "r1".to_string(),
        shape: Shape::RestKalshi,
        direction: Direction::Standard,
        market: "K-a".to_string(),
        pm_market: "p-a".to_string(),
        qty,
        limit: "0.2500".to_string(),
        closes_ts: ts.to_bits(),
        k_basis: "0.190000".to_string(),
        pm_basis: "0.780000".to_string(),
        pm_ask_at_decision: "0.20".to_string(),
        lock_ct: "0.0100".to_string(),
        cross: None,
        runner_up_ct: None,
    }
}

fn member_resting_pmus(ts: f64, qty: i64) -> Order {
    let mut o = member(ts, qty);
    o.shape = Shape::RestPmUs;
    o.limit = "0.0100".to_string();
    o
}

fn cand(qty: i64, ts: f64) -> Exit {
    Exit {
        rel_id: "r1".to_string(),
        market_id: "K-a".to_string(),
        opened_ts: ts.to_bits(),
        qty,
        actionable: true,
    }
}

fn copy_receipt(r: &Receipt) -> Receipt {
    Receipt {
        client: r.client.clone(),
        id: r.id.clone(),
        price: r.price.clone(),
        qty: r.qty,
        book_us: r.book_us,
        allocation_us: r.allocation_us.clone(),
    }
}

/// What a checkpoint keeps of a state.
fn checkpointed(s: &State) -> State {
    State {
        rel_id: s.rel_id.clone(),
        market: s.market.clone(),
        opened_bits: s.opened_bits,
        active: s.active.as_ref().map(|a| Active {
            order: a.order.clone(),
            allocations: a.allocations.clone(),
            regroup: a.regroup,
            rest: copy_receipt(&a.rest),
            filled: a.filled,
            hedged: a.hedged,
            hedge: a.hedge.as_ref().map(copy_receipt),
            attempts: a.attempts,
        }),
        latched: s.latched,
    }
}

struct VenueOrder {
    req: PlaceRequest,
    filled: i64,
    over: bool,
}

#[derive(Default)]
struct Venue {
    orders: Vec<VenueOrder>,
    ioc_fills: VecDeque<i64>,
    cancel_blocked: bool,
    lose_ack: bool,
    drop_place: bool,
    ioc_pending: bool,
}

impl Venue {
    fn place(&mut self, req: PlaceRequest) -> SendReply {
        if self.drop_place {
            return SendReply::Unknown;
        }
        let id = format!("order-{}", self.orders.len());
        let filled =
            if req.post_only { 0 } else { self.ioc_fills.pop_front().unwrap_or(req.qty) };
        let over = !req.post_only && !self.ioc_pending;
        self.orders.push(VenueOrder { req, filled, over });
        if self.lose_ack {
            SendReply::Unknown
        } else {
            SendReply::Accepted { id }
        }
    }

    fn at(&mut self, id: &str) -> &mut VenueOrder {
        let n: usize = id["order-".len()..].parse().expect("an id");
        &mut self.orders[n]
    }

    fn fill(&mut self, id: &str, qty: i64, over: bool) {
        let o = self.at(id);
        o.filled = qty;
        o.over = over;
    }

    fn end_of(&mut self, rc: &Receipt) -> TerminalReply {
        let o = self.at(rc.id.as_ref().expect("an id"));
        if o.over {
            TerminalReply::Over { qty: o.filled }
        } else {
            TerminalReply::Open
        }
    }

    fn recover(&self, req: &PlaceRequest) -> RecoverReply {
        match self.orders.iter().position(|o| o.req.client_order_id == req.client_order_id) {
            Some(n) => RecoverReply::Found { id: format!("order-{n}") },
            None => RecoverReply::Absent,
        }
    }

    fn iocs(&self) -> Vec<i64> {
        self.orders.iter().filter(|o| !o.req.post_only).map(|o| o.req.qty).collect()
    }
}

/// A booked part: the lot's opening time, its quantity, and the number it is
/// booked under.
type Row = (f64, i64, u64);

struct Desk {
    k: Venue,
    p: Venue,
    clock: IdClock,
    gauges: Gauges,
    wall: u64,
    rows: Vec<Row>,
    said: Vec<String>,
}

impl Desk {
    fn new() -> Desk {
        Desk {
            k: Venue::default(),
            p: Venue::default(),
            clock: IdClock::new(),
            gauges: Gauges::new(),
            wall: WALL,
            rows: Vec::new(),
            said: Vec::new(),
        }
    }

    fn rest_venue(&mut self, shape: Shape) -> &mut Venue {
        match shape {
            Shape::RestKalshi => &mut self.k,
            Shape::RestPmUs => &mut self.p,
        }
    }

    fn close_venue(&mut self, shape: Shape) -> &mut Venue {
        match shape {
            Shape::RestKalshi => &mut self.p,
            Shape::RestPmUs => &mut self.k,
        }
    }

    fn place_group(&mut self, s: &mut State, members: Vec<Order>, v: &EngineView) -> Placed {
        let req = reserve(s, &members, &mut self.clock, self.wall).expect("one order");
        let shape = members[0].shape;
        let crosses = members[0].cross.is_some();
        let reply = self.rest_venue(shape).place(req);
        let placed = place_reply(s, &mut self.gauges, reply);
        if crosses && s.busy() {
            self.manage(s, Some(v));
        }
        placed
    }

    fn place(&mut self, s: &mut State, o: Order) {
        self.place_group(s, vec![o], &view("0.20"));
        assert!(s.busy());
    }

    fn manage(&mut self, s: &mut State, v: Option<&EngineView>) -> String {
        let result = self.advance(s, v);
        let why = result.as_ref().err().cloned().unwrap_or_default();
        conclude(s, result.is_err());
        why
    }

    fn pass(&mut self, s: &mut State) -> String {
        self.manage(s, Some(&view("0.20")))
    }

    /// One pass over a lot: do what it asks for until it is over.
    fn advance(&mut self, s: &mut State, v: Option<&EngineView>) -> Result<(), String> {
        let fees = FeeSchedule::new();
        let wall = self.wall;
        let mut go = start(s, &fees, v, &mut self.clock, wall);
        loop {
            match go {
                Go::Done { .. } => return Ok(()),
                Go::Failed { why } => return Err(self.reason(s, why)),
                Go::Wait { phase, act } => {
                    let event = self.perform(s, act);
                    go = next(s, phase, event, &fees, v, &mut self.clock, wall);
                }
            }
        }
    }

    fn reason(&self, s: &State, why: Failure) -> String {
        let client = s.active.as_ref().map(|a| a.rest.client.clone()).unwrap_or_default();
        match why {
            Failure::AckLost { .. } => lines::ack_lost(&client),
            Failure::Unconfirmed { .. } => lines::unconfirmed(&client, "absent"),
            other => format!("{other:?}"),
        }
    }

    fn perform(&mut self, s: &State, act: Act) -> Event {
        let a = s.active.as_ref().expect("an active lot");
        let shape = a.order.shape;
        match act {
            Act::Recover { req } => {
                let venue =
                    if req.post_only { self.rest_venue(shape) } else { self.close_venue(shape) };
                Event::Recovered { answer: venue.recover(&req) }
            }
            Act::ReadEnd { hedge } => {
                let answered = if hedge {
                    let rc = copy_receipt(a.hedge.as_ref().expect("a hedge"));
                    self.close_venue(shape).end_of(&rc)
                } else {
                    let rc = copy_receipt(&a.rest);
                    self.rest_venue(shape).end_of(&rc)
                };
                Event::End { answered }
            }
            Act::ReadFills => {
                let id = a.rest.id.clone().expect("an id");
                Event::Fills { qty: Some(self.rest_venue(shape).at(&id).filled) }
            }
            Act::Cancel { why } => {
                if let RestStep::Pull { why, .. } = why {
                    self.said.push(lines::lot_pulling(&a.order, &why.text(&a.order, "")));
                }
                let id = a.rest.id.clone().expect("an id");
                let venue = self.rest_venue(shape);
                if !venue.cancel_blocked {
                    venue.at(&id).over = true;
                }
                Event::Cancelled
            }
            Act::Send { req } => Event::Sent { reply: self.close_venue(shape).place(req) },
            Act::ReadPrices => Event::Priced { rest: None, close: None },
            Act::Book { parts, .. } => {
                for (part, number) in parts {
                    let row = (f64::from_bits(part.closes_ts), part.qty, number);
                    // The ledger books a number once.
                    if !self.rows.contains(&row) {
                        self.rows.push(row);
                    }
                }
                Event::Booked { done: true }
            }
        }
    }

    fn closes(&self) -> Vec<(f64, i64)> {
        self.rows.iter().map(|r| (r.0, r.1)).collect()
    }
}

fn id(s: &State) -> String {
    s.active.as_ref().expect("active").rest.id.clone().expect("an id")
}

fn owner(ts: f64, qty: i64) -> State {
    State::new(&cand(qty, ts))
}

#[test]
fn inverse_requests_use_the_held_contract_direction_for_both_shapes_and_crosses() {
    let mut clock = IdClock::new();
    for shape in [Shape::RestKalshi, Shape::RestPmUs] {
        let mut o = member(1.0, 3);
        o.direction = Direction::Inverse;
        o.shape = shape;
        let rest = Receipt::new(&mut clock, WALL, "0.4000".to_string(), 3).request(&o, false);
        let hedge = Receipt::new(&mut clock, WALL, "0.5000".to_string(), 3).request(&o, true);
        let side = |sells: bool| if sells { Side::Ask } else { Side::Bid };
        assert_eq!(rest.side, side(o.direction.sells(shape.rest_venue())));
        assert_eq!(hedge.side, side(o.direction.sells(shape.close_venue())));
        o.cross = Some(Cross { limit: "0.4000".to_string(), lock_ct: "0.02".to_string() });
        let first = Receipt::new(&mut clock, WALL, "0.4000".to_string(), 3).request(&o, false);
        assert_eq!(first.side, rest.side);
        assert_eq!(first.tif, Tif::Ioc);
        assert!(!first.post_only);
    }
}

#[test]
fn grouping_requires_identical_execution_terms_and_never_rounds_prices() {
    let a = member(1.0, 3);
    let mut b = member(2.0, 7);
    assert_eq!(aggregate(&vec![a.clone(), b.clone()]).expect("one order").qty, 10);
    b.limit = format!("{}0", a.limit);
    assert_eq!(group_key(&a), group_key(&b));
    b.limit = "0.30001".to_string();
    let mut c = b.clone();
    c.limit = "0.30002".to_string();
    assert_ne!(group_key(&b), group_key(&c));
    b = member(2.0, 7);
    b.shape = Shape::RestPmUs;
    assert!(aggregate(&vec![a.clone(), b]).is_err());
    let mut b = member(2.0, 7);
    b.pm_market = "different".to_string();
    assert!(aggregate(&vec![a.clone(), b]).is_err());
    assert!(aggregate(&vec![a.clone(), a]).is_err());
}

#[test]
fn allocations_keep_basis_and_choose_the_strictest_hedge_limit() {
    let fees = FeeSchedule::new();
    let old = member(1.0, 3);
    let mut new = member(2.0, 7);
    new.k_basis = "0.2500".to_string();
    let members = vec![old.clone(), new.clone()];
    let pieces = allocate(&members, 2, 4).expect("within the group");
    assert_eq!(pieces[0].1.k_basis, old.k_basis);
    assert_eq!(pieces[1].1.k_basis, new.k_basis);
    assert_eq!(pieces.iter().map(|(_, o)| o.qty).collect::<Vec<_>>(), vec![1, 3]);
    let group = group_hedge_limit(&fees, &members, 0, 6, false, &view("0.20")).expect("priced");
    for (_, part) in allocate(&members, 0, 6).expect("within the group") {
        let price = hedge_limit(&fees, &part, part.qty, &view("0.20")).expect("priced");
        assert!(group <= price, "{group} against {price}");
    }
    assert_eq!(allocate(&members, 9, 2).err(), Some(ShareRefusal::Exceeds));
    assert_eq!(allocate(&members, -1, 2).err(), Some(ShareRefusal::Negative));
}

#[test]
fn grouped_partial_fill_is_fifo_and_retry_survives_restart() {
    let mut d = Desk::new();
    let mut a = owner(1.0, 3);
    d.p.ioc_fills.extend([2, 4]);
    d.place_group(&mut a, vec![member(2.0, 7), member(1.0, 3)], &view("0.20"));
    assert_eq!(d.k.orders.len(), 1);
    assert_eq!(d.k.at(&id(&a)).req.qty, 10);
    assert_eq!(a.reserved_keys().len(), 2);
    d.k.fill(&id(&a), 6, true);
    d.pass(&mut a);
    assert_eq!(d.closes(), vec![(1.0, 2)]);
    let mut a = checkpointed(&a);
    assert_eq!(check_loaded(&a, &a.key()), None);
    d.pass(&mut a);
    assert_eq!(d.closes(), vec![(1.0, 2), (1.0, 1), (2.0, 3)]);
    assert_eq!(d.p.iocs(), vec![6, 4]);
    assert!(!a.busy());
}

#[test]
fn grouped_booking_replays_after_crash_between_allocation_records() {
    let mut d = Desk::new();
    let mut a = owner(1.0, 3);
    d.p.ioc_pending = true;
    d.place_group(&mut a, vec![member(1.0, 3), member(2.0, 7)], &view("0.20"));
    d.k.fill(&id(&a), 6, true);
    d.pass(&mut a);
    let before = checkpointed(&a);
    d.p.fill("order-0", 6, true);
    d.pass(&mut a);
    // Only the first of the two records survived.
    d.rows.pop();
    let mut a = before;
    d.pass(&mut a);
    assert_eq!(d.rows.len(), 2);
    assert_eq!(d.rows.iter().map(|r| r.1).sum::<i64>(), 6);
    assert_eq!(d.p.iocs().len(), 1);
    assert!(!a.busy());
}

#[test]
fn regroup_keeps_all_reservations_until_cancel_is_confirmed() {
    let mut d = Desk::new();
    let mut a = owner(1.0, 3);
    d.place_group(&mut a, vec![member(1.0, 3), member(2.0, 7)], &view("0.20"));
    a.request_regroup();
    d.k.cancel_blocked = true;
    d.pass(&mut a);
    assert_eq!(a.reserved_keys().len(), 2);
    assert!(d.p.iocs().is_empty());
    d.k.fill(&id(&a), 4, true);
    d.pass(&mut a);
    assert!(a.reserved_keys().is_empty());
    assert_eq!(d.closes(), vec![(1.0, 3), (2.0, 1)]);
}

#[test]
fn multiple_lots_on_one_market_rest_full_inventory_and_book_their_own_partial_fills() {
    let mut d = Desk::new();
    let mut a = owner(1.0, 34);
    let mut b = owner(2.0, 21);
    d.place(&mut a, member(1.0, 34));
    d.place(&mut b, member(2.0, 21));
    assert_eq!(d.k.orders.len(), 2);
    assert_eq!(d.k.orders.iter().map(|o| o.req.qty).sum::<i64>(), 55);
    assert_ne!(id(&a), id(&b));
    d.k.fill(&id(&a), 7, false);
    d.k.fill(&id(&b), 9, false);
    d.pass(&mut a);
    assert!(b.busy());
    d.pass(&mut b);
    assert_eq!(d.closes(), vec![(1.0, 7), (2.0, 9)]);
    assert_eq!(55 - d.rows.iter().map(|r| r.1).sum::<i64>(), 39, "what stays open");
}

#[test]
fn cancel_must_be_terminal_before_hedging_and_late_fills_are_included() {
    let mut d = Desk::new();
    let mut a = owner(1.0, 20);
    d.place(&mut a, member(1.0, 20));
    d.k.fill(&id(&a), 3, false);
    d.k.cancel_blocked = true;
    d.pass(&mut a);
    assert!(d.p.iocs().is_empty());
    d.k.fill(&id(&a), 8, true);
    d.pass(&mut a);
    assert_eq!(d.p.iocs(), vec![8]);
    assert_eq!(d.closes(), vec![(1.0, 8)]);
}

#[test]
fn partial_hedge_retries_only_its_confirmed_shortfall_after_restart() {
    let mut d = Desk::new();
    let mut a = owner(1.0, 34);
    d.p.ioc_fills.extend([3, 7]);
    d.place(&mut a, member(1.0, 34));
    d.k.fill(&id(&a), 10, true);
    d.pass(&mut a);
    assert_eq!(d.closes(), vec![(1.0, 3)]);
    let mut a = checkpointed(&a);
    d.pass(&mut a);
    assert!(!a.busy());
    assert_eq!(d.p.iocs(), vec![10, 7]);
    assert_eq!(d.rows.iter().map(|r| r.1).sum::<i64>(), 10);
}

#[test]
fn unconfirmed_hedge_is_not_retried_or_attributed_to_a_sibling() {
    let mut d = Desk::new();
    let mut a = owner(1.0, 10);
    d.p.ioc_pending = true;
    d.place(&mut a, member(1.0, 10));
    d.k.fill(&id(&a), 10, true);
    d.pass(&mut a);
    d.pass(&mut a);
    assert_eq!(d.p.iocs().len(), 1);
    assert!(d.rows.is_empty());
    d.p.fill("order-0", 10, true);
    d.pass(&mut a);
    assert_eq!(d.p.iocs().len(), 1);
    assert_eq!(d.closes(), vec![(1.0, 10)]);
}

#[test]
fn booking_replay_after_crash_is_idempotent() {
    let mut d = Desk::new();
    let mut a = owner(1.0, 12);
    d.p.ioc_pending = true;
    d.place(&mut a, member(1.0, 12));
    d.k.fill(&id(&a), 12, true);
    d.pass(&mut a);
    let before = checkpointed(&a);
    d.p.fill("order-0", 12, true);
    d.pass(&mut a);
    let mut a = before;
    d.pass(&mut a);
    assert_eq!(d.rows.len(), 1, "the same number names the same record");
    assert_eq!(d.p.iocs().len(), 1);
    assert!(!a.busy());
}

#[test]
fn lost_kalshi_ack_recovers_exact_order_but_pmus_never_adopts_a_sibling() {
    let mut d = Desk::new();
    let mut a = owner(1.0, 12);
    d.k.lose_ack = true;
    d.place(&mut a, member(1.0, 12));
    d.pass(&mut a);
    assert_eq!(id(&a), "order-0");
    assert_eq!(d.k.orders.len(), 1);
    let mut b = owner(2.0, 12);
    d.p.lose_ack = true;
    d.place(&mut b, member_resting_pmus(2.0, 12));
    let out = d.pass(&mut b);
    assert!(out.contains("identity requires reconciliation"), "{out}");
    assert!(b.active.as_ref().expect("active").rest.id.is_none());
    assert_eq!(d.p.orders.len(), 1);
}

#[test]
fn kalshi_absence_releases_a_503_place_only_after_the_list_could_lag() {
    let mut d = Desk::new();
    let mut a = owner(1.0, 12);
    d.k.drop_place = true;
    d.place(&mut a, member(1.0, 12));
    let out = d.pass(&mut a);
    assert!(out.contains("still unconfirmed"), "{out}");
    assert!(a.latched);
    d.wall += ABSENT_IS_PROOF_AFTER_US + 1_000_000;
    d.pass(&mut a);
    let out = lines::lot_never_landed(&member(1.0, 12), "1", "x1", 301);
    assert!(out.contains("never reached Kalshi"), "{out}");
    assert!(!a.busy() && !a.latched);
    assert!(d.k.orders.is_empty());
    assert!(d.rows.is_empty());
}

#[test]
fn opposite_shapes_on_same_market_close_only_their_own_fills() {
    let mut d = Desk::new();
    let mut a = owner(1.0, 11);
    let mut b = owner(2.0, 17);
    d.place(&mut a, member(1.0, 11));
    d.place(&mut b, member_resting_pmus(2.0, 17));
    d.k.fill(&id(&a), 11, true);
    d.p.fill(&id(&b), 17, true);
    d.pass(&mut a);
    d.pass(&mut b);
    assert_eq!(d.rows.len(), 2);
    assert_eq!(d.p.iocs(), vec![11]);
    assert_eq!(d.k.iocs(), vec![17]);
}

#[test]
fn parallel_order_ids_and_checkpoint_keys_do_not_collide() {
    let mut clock = IdClock::new();
    let ids: BTreeSet<String> =
        (0..10000).map(|_| client_order_id(&mut clock, WALL)).collect();
    assert_eq!(ids.len(), 10000);
    assert_ne!(owner(1.0, 1).key(), owner(2.0, 1).key());
}

#[test]
fn crash_after_last_receipt_checkpoint_does_not_send_a_zero_quantity_hedge() {
    let mut d = Desk::new();
    let mut a = owner(1.0, 12);
    d.place(&mut a, member(1.0, 12));
    let active = a.active.as_mut().expect("active");
    active.filled = Some(12);
    active.hedged = 12;
    let mut a = checkpointed(&a);
    assert!(a.is_sound());
    d.pass(&mut a);
    assert!(d.p.iocs().is_empty());
    assert!(!a.busy());
}

#[test]
fn startup_sweep_fill_is_reconciled_before_replacing_the_order() {
    let mut d = Desk::new();
    let mut a = owner(1.0, 25);
    d.place(&mut a, member(1.0, 25));
    d.k.fill(&id(&a), 6, true);
    let mut a = checkpointed(&a);
    d.pass(&mut a);
    assert_eq!(d.k.orders.len(), 1);
    assert_eq!(d.p.iocs(), vec![6]);
    assert_eq!(d.closes(), vec![(1.0, 6)]);
    assert!(!a.busy());
}

#[test]
fn dark_engine_pulls_orders_but_defers_hedges_until_prices_are_fresh() {
    let mut d = Desk::new();
    let mut a = owner(1.0, 25);
    d.place(&mut a, member(1.0, 25));
    d.k.fill(&id(&a), 6, false);
    d.manage(&mut a, None);
    assert!(d.k.orders.iter().all(|o| o.over));
    assert!(d.p.iocs().is_empty());
    d.pass(&mut a);
    assert_eq!(d.closes(), vec![(1.0, 6)]);
}

#[test]
fn crossed_exit_closes_immediately_using_the_cross_price_and_taker_fees() {
    let mut d = Desk::new();
    let mut a = owner(1.0, 12);
    let mut o = member(1.0, 12);
    o.cross = Some(Cross { limit: "0.3000".to_string(), lock_ct: "0.0800".to_string() });
    d.place_group(&mut a, vec![o.clone()], &view("0.20"));
    assert!(!a.busy());
    assert_eq!(d.k.iocs().len(), 1);
    assert_eq!(d.k.orders[0].req.price, "0.3000");
    assert_eq!(d.p.iocs().len(), 1);
    assert_eq!(d.closes(), vec![(1.0, 12)]);
    let rec = close_record(&o, o.rest_limit(), "0.2000", 12, 1.0f64.to_bits(), "s");
    assert!(rec.legs.iter().all(|l| l.role == Role::Taker));
}

#[test]
fn a_pulled_lot_order_reports_its_real_resting_age() {
    let second = 1_000_000_000u64;
    let now = 1_000_000 * second;
    let age = now - placed_at(WALL - 300_000_000, WALL, now);
    assert!((299 * second..=301 * second).contains(&age), "{age}");
    let future = now - placed_at(WALL + 60_000_000, WALL, now);
    assert!(future < second, "a clock-skewed id clamps to now: {future}");
    assert_eq!(placed_at(0, WALL, 5), 5, "older than the clock itself");
}

#[test]
fn production_groups_equal_quotes_in_fifo_order_but_preserves_other_prices() {
    let old = member(1.0, 3);
    let new = member(2.0, 7);
    let mut other = member(3.0, 3);
    other.limit = "0.9900".to_string();
    let grouped = groups(&vec![new, other, old.clone()]);
    assert_eq!(grouped.len(), 2);
    let key = group_key(&old);
    let members = &grouped.iter().find(|g| g.0 == key).expect("the group").1;
    assert_eq!(
        members.iter().map(|o| f64::from_bits(o.closes_ts)).collect::<Vec<_>>(),
        vec![1.0, 2.0]
    );
    assert_eq!(members.iter().map(|o| o.qty).sum::<i64>(), 10);
}

#[test]
fn a_group_that_no_longer_pays_is_pulled_and_claims_nothing_more() {
    let mut d = Desk::new();
    let mut a = owner(1.0, 3);
    d.place_group(&mut a, vec![member(2.0, 7), member(1.0, 3)], &view("0.20"));
    let ladder = close_depth_key(Direction::Standard, Shape::RestKalshi, "K-a", "p-a");
    assert_eq!(ladder, "polymarket_us:p-a:ask");
    assert_eq!(a.passive_claim(), Some((ladder, 10)));
    d.pass(&mut a);
    assert!(a.busy(), "it pays, so it rests on");
    d.manage(&mut a, Some(&view("0.60")));
    assert_eq!(a.passive_claim(), None, "nothing rests, nothing is claimed");
}

#[test]
fn a_hedge_waits_for_a_price_that_pays_and_crosses_out_in_the_end() {
    let mut d = Desk::new();
    let mut a = owner(1.0, 5);
    d.place(&mut a, member(1.0, 5));
    d.k.fill(&id(&a), 5, true);
    let dear = view("0.60");
    for i in 0..10 {
        d.manage(&mut a, Some(&dear));
        assert!(d.p.iocs().is_empty(), "pass {i} still waits");
        assert!(a.latched);
    }
    d.manage(&mut a, Some(&dear));
    assert_eq!(d.p.iocs(), vec![5]);
    assert_eq!(d.p.orders[0].req.price, "0.6100", "a tick through the ask");
    assert!(!a.busy() && !a.latched);
}

#[test]
fn only_a_business_rejection_frees_a_reservation() {
    for status in [400, 401, 403, 404, 422, 429] {
        assert!(rejected(Some(status), false), "{status}");
    }
    assert!(!rejected(Some(503), false));
    assert!(!rejected(None, false));
    assert!(rejected(Some(409), true), "a halted market took nothing");
    let mut d = Desk::new();
    let mut a = owner(1.0, 5);
    reserve(&mut a, &vec![member(1.0, 5)], &mut d.clock, WALL).expect("one order");
    let placed = place_reply(&mut a, &mut d.gauges, SendReply::Rejected);
    assert_eq!(placed, Placed::Released);
    assert!(!a.busy());
}

#[test]
fn a_group_is_refused_by_name() {
    let mut clock = IdClock::new();
    let mut a = owner(1.0, 5);
    let e = reserve(&mut a, &Vec::new(), &mut clock, WALL).expect_err("nothing to rest");
    assert_eq!(e, GroupRefusal::Empty);
    let mut x = member(1.0, 5);
    x.cross = Some(Cross { limit: "0.30".to_string(), lock_ct: "0.02".to_string() });
    let mut y = x.clone();
    y.closes_ts = 2.0f64.to_bits();
    assert!(aggregate(&vec![x, y]).is_err(), "a cross is not shared");
}

#[test]
fn a_checkpoint_under_another_name_or_with_other_lots_is_not_loaded() {
    let mut d = Desk::new();
    let mut a = owner(1.0, 3);
    d.place_group(&mut a, vec![member(2.0, 7), member(1.0, 3)], &view("0.20"));
    assert_eq!(check_loaded(&a, &a.key()), None);
    assert_eq!(check_loaded(&a, "elsewhere"), Some(LoadRefusal::Identity));
    let mut odd = checkpointed(&a);
    odd.active.as_mut().expect("active").allocations.reverse();
    assert!(check_loaded(&odd, &odd.key()).is_some(), "lots out of order");
    let mut odd = checkpointed(&a);
    odd.active.as_mut().expect("active").order.qty = 9;
    assert_eq!(check_loaded(&odd, &odd.key()), Some(LoadRefusal::Reservation));
}

#[test]
fn a_lot_key_is_the_digest_of_its_name_and_opening_time() {
    let mut bytes = b"r1".to_vec();
    bytes.extend_from_slice(&1.0f64.to_bits().to_be_bytes());
    let digest: String = Sha256::digest(&bytes).iter().map(|b| format!("{b:02x}")).collect();
    assert_eq!(lot_key("r1", 1.0f64.to_bits()), digest);
    assert_eq!(owner(1.0, 3).key(), digest);
    assert_ne!(lot_key("r2", 1.0f64.to_bits()), digest);
    assert_eq!(hex(&vec![0, 15, 255]), "000fff");
}

#[test]
fn a_group_key_is_the_text_of_its_terms() {
    let nothing: Option<u64> = None;
    let terms = ("K-a", "p-a", "rest-kalshi", "Standard", "0.25", nothing);
    assert_eq!(group_key(&member(1.0, 3)), serde_json::to_string(&terms).expect("json"));
    assert_eq!(group_key(&member(1.0, 3)), group_key(&member(9.0, 4)), "whatever the lot");
    let mut o = member(1.0, 3);
    o.market = "K\"a".to_string();
    assert!(group_key(&o).starts_with("[\"K\\\"a\","), "{}", group_key(&o));
    o = member(1.0, 3);
    o.cross = Some(Cross { limit: "0.30".to_string(), lock_ct: "0.02".to_string() });
    let terms =
        ("K-a", "p-a", "rest-kalshi", "Standard", "0.25", Some(1.0f64.to_bits()));
    assert_eq!(group_key(&o), serde_json::to_string(&terms).expect("json"));
}

#[test]
fn the_oldest_lot_comes_first_and_ties_go_by_name() {
    let mut b = member(1.0, 3);
    b.rel_id = "r2".to_string();
    assert!(is_older(&member(1.0, 3), &b));
    assert!(!is_older(&b, &member(1.0, 3)));
    assert!(is_older(&b, &member(2.0, 3)));
}

#[test]
fn a_lot_is_reserved_once() {
    let a = vec!["a".to_string(), "b".to_string()];
    let all = reservations(&vec![a.clone(), vec!["c".to_string()]]).expect("no lot twice");
    assert_eq!(all, vec!["a".to_string(), "b".to_string(), "c".to_string()]);
    assert_eq!(reservations(&vec![a.clone(), a.clone()]), None);
    assert_eq!(lot_step(true, "a", &a), LotStep::Busy);
    assert_eq!(lot_step(false, "a", &a), LotStep::Yields);
    assert_eq!(lot_step(false, "z", &a), LotStep::Plan);
}

#[test]
fn claims_on_one_ladder_add_up() {
    let mut claims = Vec::new();
    claim(&mut claims, "kalshi:K-a:bid", 5);
    claim(&mut claims, "kalshi:K-b:bid", 1);
    claim(&mut claims, "kalshi:K-a:bid", 2);
    let of = |k: &str| claims.iter().find(|c| c.0 == k).map(|c| c.1);
    assert_eq!(of("kalshi:K-a:bid"), Some(7));
    assert_eq!(of("kalshi:K-b:bid"), Some(1));
}

#[test]
fn a_group_rests_only_where_nothing_like_it_does() {
    let fees = FeeSchedule::new();
    let m = vec![member(1.0, 3)];
    let v = view("0.20");
    assert_eq!(incumbents(&vec![Some("g".to_string()), None], "g"), vec![0]);
    assert_eq!(group_step(1, 0, &fees, &m, Some(&v)), GroupStep::Regroup);
    assert_eq!(group_step(0, 1, &fees, &m, Some(&v)), GroupStep::Stop);
    assert_eq!(group_step(0, 0, &fees, &m, None), GroupStep::Stop);
    assert_eq!(group_step(0, 0, &fees, &m, Some(&view("0.60"))), GroupStep::Skip);
    assert_eq!(group_step(0, 0, &fees, &m, Some(&v)), GroupStep::Place);
}

#[test]
fn an_inverse_hedge_mirrors_the_prices_of_its_twin() {
    // The basket turned over: its Kalshi leg rests as a bid at 0.75, which is
    // an ask at 0.25 on the other side, and closes by selling PM-US.
    let fees = FeeSchedule::new();
    let mut o = member(1.0, 5);
    o.direction = Direction::Inverse;
    o.limit = "0.7500".to_string();
    let mut v = view("0.20");
    v.pm_bid = vec![pair("p-a", "0.80")];
    let twin = hedge_limit(&fees, &member(1.0, 5), 5, &view("0.20")).expect("priced");
    let turned = hedge_limit(&fees, &o, 5, &v).expect("priced");
    assert_eq!(turned, 1_000_000 - twin);
    let l = mirror_ladder(&vec![Rung { start: 0, end: 100_000, step: 1_000 }]);
    assert_eq!(l, vec![Rung { start: 900_000, end: 1_000_000, step: 1_000 }]);
}

#[test]
fn a_hedge_without_a_book_is_stuck() {
    let mut v = view("0.20");
    assert_eq!(cross_limit(&member(1.0, 5), &v), Ok(210_000));
    v.pm_ask = vec![pair("p-a", "0.20006")];
    assert_eq!(cross_limit(&member(1.0, 5), &v), Ok(210_100), "rounded for the wire");
    v.pm_ask = vec![pair("p-a", "0.9899999999")];
    assert_eq!(cross_limit(&member(1.0, 5), &v), Ok(1_000_000), "under a dollar until it is rounded");
    v.pm_ask = vec![pair("p-a", "0.9950")];
    assert_eq!(cross_limit(&member(1.0, 5), &v), Err(CrossRefusal::Outside));
    v.pm_ask = Vec::new();
    assert_eq!(cross_limit(&member(1.0, 5), &v), Err(CrossRefusal::NoBook));
    let mut o = member_resting_pmus(1.0, 5);
    o.limit = "0.25".to_string();
    v.k_ladder = vec![("K-a".to_string(), vec![Rung { start: 0, end: 1_000_000, step: 1_000 }])];
    assert_eq!(cross_limit(&o, &v), Ok(199_000), "Kalshi steps on its own ladder");
    for none in [Vec::new(), vec![Rung { start: 0, end: 1_000_000, step: 0 }]] {
        v.k_ladder = vec![("K-a".to_string(), none)];
        assert_eq!(cross_limit(&o, &v), Err(CrossRefusal::NoStep), "such a ladder holds no price");
    }
}

#[test]
fn a_group_is_pulled_when_the_ladder_no_longer_backs_its_total() {
    let mut d = Desk::new();
    let mut a = owner(1.0, 3);
    let name = close_depth_key(Direction::Standard, Shape::RestKalshi, "K-a", "p-a");
    let ladder = |size: i64| {
        let mut v = view("0.20");
        v.depth = vec![(name.clone(), size)];
        v
    };
    d.place_group(&mut a, vec![member(2.0, 7), member(1.0, 3)], &ladder(10));
    assert_eq!(a.passive_claim(), Some((name.clone(), 10)));
    d.manage(&mut a, Some(&ladder(10)));
    assert!(d.said.is_empty(), "ten back ten: {:?}", d.said);
    assert!(a.busy());
    d.manage(&mut a, Some(&ladder(7)));
    assert_eq!(d.said.len(), 1);
    assert!(d.said[0].contains("PULLING"), "{:?}", d.said);
    assert!(d.said[0].contains("depth fell to 7"), "{:?}", d.said);
    assert_eq!(a.passive_claim(), None, "nothing rests, nothing is claimed");
}

#[test]
fn a_limit_of_any_length_has_one_key() {
    let key = |limit: &str| {
        let mut o = member(1.0, 3);
        o.limit = limit.to_string();
        group_key(&o)
    };
    assert_eq!(key("0.1234567"), key("0.12345670"));
    assert_eq!(key("0.2500"), key("25e-2"));
    assert_ne!(key("0.1234567"), key("0.1234568"));
    assert_ne!(key("0.25000000000000000000000000001"), key("0.25"));
    assert_ne!(key("a price"), key("a price "));
    assert!(key("101.500").contains("\"101.5\""), "{}", key("101.500"));
}

#[test]
fn a_member_with_nothing_left_gets_no_share() {
    let members = vec![member(1.0, 0), member(2.0, 4), member(3.0, 0), member(4.0, 2)];
    let pieces = allocate(&members, 1, 4).expect("within the group");
    assert_eq!(
        pieces.iter().map(|(i, o)| (*i, o.qty)).collect::<Vec<_>>(),
        vec![(1, 3), (3, 1)]
    );
}

#[test]
fn a_hedge_is_numbered_from_the_clock() {
    let mut d = Desk::new();
    let mut a = owner(1.0, 3);
    d.p.ioc_pending = true;
    d.place_group(&mut a, vec![member(1.0, 3), member(2.0, 7)], &view("0.20"));
    d.k.fill(&id(&a), 6, true);
    let last = d.clock.last;
    d.wall = last + 500;
    d.pass(&mut a);
    let h = a.active.as_ref().and_then(|a| a.hedge.as_ref()).expect("a hedge");
    assert_eq!(h.book_us, last + 500);
    assert_eq!(h.allocation_us, vec![last + 501, last + 502]);
    assert_eq!(d.clock.last, last + 502);
}

#[test]
fn a_lot_asks_for_the_sides_of_its_own_direction() {
    let mut d = Desk::new();
    let mut a = owner(1.0, 3);
    assert!(a.yields().is_empty(), "nothing is out");
    d.place(&mut a, member(1.0, 3));
    assert_eq!(
        a.yields(),
        vec![pair("K-a", "ask"), pair("p-a", "bid"), pair("K-a", "bid"), pair("p-a", "ask")]
    );
    a.active.as_mut().expect("active").order.direction = Direction::Inverse;
    assert_eq!(
        a.yields(),
        vec![pair("K-a", "bid"), pair("p-a", "ask"), pair("K-a", "ask"), pair("p-a", "bid")]
    );
}
