//! Each refusal, with an input that gives it.
use arb_trader::advance::{next, start, Act, End, Event, Failure, Go};
use arb_trader::board::{engine_view, Board, EngineView, ViewRefusal};
use arb_trader::decimal::Ratio;
use arb_trader::decide::{decide, DecideRefusal, Exit, Lot, Quote, ShapeRefusal};
use arb_trader::exit::{
    manage, resolve_vanished, FillRead, HealPlan, ManageStep, NetRead, Vanished,
};
use arb_trader::fees::FeeSchedule;
use arb_trader::gauges::Gauges;
use arb_trader::group::{aggregate, GroupRefusal, ShareRefusal};
use arb_trader::hedge::{group_hedge_limit, hedge_limit, HedgeRefusal};
use arb_trader::ids::IdClock;
use arb_trader::ladder::{penny_ladder, Rung};
use arb_trader::live::{Live, PendingClose, Resting, TargetRefusal};
use arb_trader::lot::{check_loaded, LoadRefusal, State};
use arb_trader::lot_steps::{
    bookings, place_reply, reserve, rest_step, BookRefusal, Placed, RecoverReply, RestStep,
    SendReply, TerminalReply,
};
use arb_trader::money::Px;
use arb_trader::order::{Cross, Order};
use arb_trader::pricing::{close_limit, exit_limit, PriceRefusal, MIN_LOCK};
use arb_trader::standoff::{
    arm_standoff, publish_working, working_check, StandOff, StandOffRefusal,
};
use arb_trader::venue::{Direction, Role, Shape};

const SECOND: u64 = 1_000_000_000;
const NOW: u64 = 1_000_000 * SECOND;
const CT: i64 = 1_000_000;
const WALL: u64 = 1_784_646_659_716_000;

fn pair(a: &str, b: &str) -> (String, String) {
    (a.to_string(), b.to_string())
}

fn view(pm_ask: &str) -> EngineView {
    EngineView {
        apr_bar: 16_000_000,
        global_cap_usd: 500_000_000,
        pm_ask: vec![pair("p-a", pm_ask)],
        pm_bid: vec![pair("p-a", "0.1900")],
        k_bid: vec![pair("K-a", "0.2000")],
        k_ask: Vec::new(),
        k_ladder: Vec::new(),
        depth: Vec::new(),
        suppressed_at: Vec::new(),
    }
}

fn order(ts: f64, qty: i64) -> Order {
    Order {
        rel_id: "r1".to_string(),
        shape: Shape::RestKalshi,
        direction: Direction::Standard,
        market: "K-a".to_string(),
        pm_market: "p-a".to_string(),
        qty,
        limit: "0.2500".to_string(),
        closes_ts: ts.to_bits(),
        k_basis: "0.190000".to_string(),
        pm_basis: "0.780000".to_string(),
        pm_ask_at_decision: "0.20".to_string(),
        lock_ct: "0.0100".to_string(),
        cross: None,
        runner_up_ct: None,
    }
}

fn exit(ts: f64) -> Exit {
    Exit {
        rel_id: "r1".to_string(),
        market_id: "K-a".to_string(),
        opened_ts: ts.to_bits(),
        qty: 5,
        actionable: true,
    }
}

// ------------------------------------------------------------------ prices

fn ask_on(ladder: Vec<Rung>, k: Px, pm: Px, close: Px) -> Result<Px, PriceRefusal> {
    let fees = FeeSchedule::new();
    let (k, pm, close) = (Ratio::dollars(k), Ratio::dollars(pm), Ratio::dollars(close));
    exit_limit(&fees, &ladder, &k, &pm, &close, 5, Role::Maker, Role::Taker, MIN_LOCK)
}

fn rungs(end: Px, step: Px) -> Vec<Rung> {
    vec![Rung { start: 0, end, step }]
}

#[test]
fn an_ask_is_refused_where_the_ladder_has_no_price_for_it() {
    let free = (50_000, 100_000, 10_000);
    let on = |l: Vec<Rung>| ask_on(l, free.0, free.1, free.2);
    assert_eq!(on(Vec::new()), Err(PriceRefusal::NoBottomRung));
    assert_eq!(on(rungs(1, 10_000)), Err(PriceRefusal::NoPositivePrice));
    assert_eq!(on(rungs(1_000_000, 10_000)), Ok(10_000));
    let e = ask_on(rungs(100_000, 10_000), 190_000, 780_000, 210_000);
    assert!(matches!(e, Err(PriceRefusal::NoSpelling { .. })), "{e:?}");
}

#[test]
fn an_ask_is_refused_where_no_price_nets_enough() {
    let e = ask_on(penny_ladder(), 300_000, 850_000, 950_000);
    assert!(matches!(e, Err(PriceRefusal::NeedsDollar { .. })), "{e:?}");
    let fine = ask_on(rungs(1_000_000, 1), 190_000, 780_000, 210_000);
    assert_eq!(fine, Err(PriceRefusal::ExitNotConverged));
    // Twenty cents do not net enough after the fee, and are the top of the ladder.
    assert_eq!(ask_on(penny_ladder(), 195_000, 780_000, 210_000), Ok(210_000));
    let short = ask_on(rungs(200_001, 10_000), 195_000, 780_000, 210_000);
    assert!(matches!(short, Err(PriceRefusal::NetsNowhere { .. })), "{short:?}");
    let top = ask_on(rungs(2_000_000, 10_000), 215_000, 780_000, 989_000);
    assert_eq!(top, Err(PriceRefusal::ReachesDollar { k_basis: 215_000, pm_basis: 780_000 }));
}

#[test]
fn a_close_is_refused_where_it_cannot_lock() {
    let fees = FeeSchedule::new();
    let close = |f: &FeeSchedule, fill: Px, pm: Px| {
        let (fill, k, pm) = (Ratio::dollars(fill), Ratio::dollars(190_000), Ratio::dollars(pm));
        close_limit(f, &fill, &k, &pm, 5, Role::Maker, Role::Taker, MIN_LOCK)
    };
    let e = close(&fees, 50_000, 950_000);
    assert!(matches!(e, Err(PriceRefusal::NoCeiling { .. })), "{e:?}");
    assert_eq!(close(&fees, 20_000, 820_000), Err(PriceRefusal::NoPositiveClose { k_fill: 20_000 }));
    assert_eq!(close(&fees, 250_000, 780_000).map(|p| p > 0), Ok(true));
}

// --------------------------------------------------------------- decisions

fn shapes(k_bid: Option<&str>, pm_ask: &str, k_cost: &str) -> DecideRefusal {
    let v = view(pm_ask);
    let q = Quote {
        market: "K-a".to_string(),
        status: "active".to_string(),
        yes_bid: k_bid.map(str::to_string),
        yes_ask: Some("0.22".to_string()),
        ladder: penny_ladder(),
    };
    let lot = |cost: &str| -> Result<Lot, String> {
        Ok(Lot { qty: 5, cost_per_ct: cost.to_string(), open_ts: 1.0f64.to_bits() })
    };
    let mut g = Gauges::new();
    decide(
        &mut g,
        &FeeSchedule::new(),
        &lot(k_cost),
        &lot("0.780000"),
        &Ok(()),
        &exit(1.0),
        "p-a",
        &q,
        &v,
        &Vec::new(),
        NOW,
        false,
    )
    .expect_err("nothing pays")
}

#[test]
fn where_neither_shape_pays_both_reasons_are_given() {
    let DecideRefusal::NeitherPays { b, .. } = shapes(None, "0.95", "0.500000") else {
        panic!("neither pays")
    };
    assert_eq!(b, ShapeRefusal::NoKalshiBid);
    let DecideRefusal::NeitherPays { b, .. } = shapes(Some("0.01"), "0.95", "0.500000") else {
        panic!("neither pays")
    };
    assert_eq!(b, ShapeRefusal::BidIsNoPrice { bid: 10_000 });
    let DecideRefusal::NeitherPays { a, b } = shapes(Some("0.20"), "0.95", "0.500000") else {
        panic!("neither pays")
    };
    assert!(matches!(a, ShapeRefusal::Price(PriceRefusal::NeedsDollar { .. })), "{a:?}");
    assert!(matches!(b, ShapeRefusal::Price(PriceRefusal::NoCeiling { .. })), "{b:?}");
}

#[test]
fn the_slot_says_why_it_takes_no_candidate() {
    let c = vec![exit(1.0)];
    let mut l = Live::new(false, "trades.jsonl".to_string());
    let r = l.target(&c, 0, NOW, 0);
    assert!(matches!(r, Err(TargetRefusal::NoneHeld { of: 1 })), "{r:?}");
    for i in 1..4 {
        let _ = l.target(&c, i * 120 * SECOND, NOW, 0);
    }
    l.park("K-a", NOW, 600 * SECOND);
    let r = l.target(&c, 480 * SECOND, NOW, 0);
    assert!(matches!(r, Err(TargetRefusal::AllParked { .. })), "{r:?}");
    l.resting = Some(resting(5, 0));
    let r = l.target(&c, 600 * SECOND, NOW + 700 * SECOND, 0);
    assert!(matches!(r, Err(TargetRefusal::AlreadyResting { .. })), "{r:?}");
}

#[test]
fn a_view_and_a_stand_off_say_why_they_refuse() {
    let b = Board::new();
    assert!(matches!(engine_view(&b, NOW), Err(ViewRefusal::NeverPublished)));
    let mut s = StandOff::new();
    arm_standoff(&mut s);
    publish_working(&mut s, vec!["K-a".to_string()], NOW);
    assert!(matches!(working_check(&s, "K-a", NOW), Err(StandOffRefusal::Working)));
    assert!(working_check(&s, "K-b", NOW).is_ok());
}

// ---------------------------------------------------------------- the slot

fn resting(qty: i64, age_s: u64) -> Resting {
    Resting {
        order: order(1.0, qty),
        venue_order_id: "v1".to_string(),
        client_order_id: "x1".to_string(),
        since: NOW - age_s * SECOND,
    }
}

fn live(r: Resting) -> Live {
    let mut l = Live::new(false, "trades.jsonl".to_string());
    l.resting = Some(r);
    l
}

#[test]
fn a_resting_exit_is_held_kept_pulled_or_cancelled() {
    let l = live(resting(5, 600));
    let at = |read: FillRead, v: &EngineView| manage(&l, read, v, NOW);
    let v = view("0.20");
    assert_eq!(at(FillRead::Failed { status: Some(503) }, &v), ManageStep::Hold);
    assert_eq!(at(FillRead::Failed { status: Some(404) }, &v), ManageStep::Vanished);
    assert_eq!(at(FillRead::Filled { qty: 0 }, &v), ManageStep::Keep);
    assert_eq!(at(FillRead::Filled { qty: 2 }, &v), ManageStep::Cancel { filled: 2 });
    let pulled = at(FillRead::Filled { qty: 0 }, &view("0.60"));
    assert!(matches!(pulled, ManageStep::Pull { .. }), "{pulled:?}");
}

#[test]
fn a_vanished_exit_traded_what_the_venue_lacks() {
    let r = resting(5, 600);
    let trace = |r: &Resting, expected: Option<i64>, net: NetRead| {
        let mut l = live(r.clone());
        let v = resolve_vanished(&mut l, r, expected, net);
        (v, l.resting.is_some())
    };
    let row = |n: i64| NetRead::Row { net: n * CT };
    assert_eq!(trace(&r, None, row(5)), (Vanished::NoLedger, true));
    assert_eq!(trace(&r, Some(5), NetRead::Unreadable), (Vanished::NoPositions, true));
    assert_eq!(trace(&r, Some(5), row(5)), (Vanished::TradedNothing, false));
    assert_eq!(trace(&r, Some(5), row(2)), (Vanished::Traded { qty: 3 }, true));
    assert_eq!(trace(&r, Some(51), NetRead::NoRow), (Vanished::TooMuch { gone: 51 }, true));
    let mut p = resting(5, 600);
    p.order.shape = Shape::RestPmUs;
    assert_eq!(trace(&p, Some(5), NetRead::NoRow), (Vanished::Degraded, true));
}

#[test]
fn a_failed_close_is_healed_by_what_can_be_known() {
    let heal = |net: Option<i64>, ledger: Option<i64>, v: &EngineView, attempts: u32| {
        let mut l = Live::new(false, "trades.jsonl".to_string());
        l.pending = Some(PendingClose { order: order(1.0, 5), filled: 5, since: NOW, attempts });
        let mut g = Gauges::new();
        arb_trader::exit::heal(&mut l, &mut g, net, ledger, v, "x1").plan
    };
    let v = view("0.20");
    assert_eq!(heal(None, Some(5), &v, 0), HealPlan::NoPositions);
    assert_eq!(heal(Some(-5 * CT), None, &v, 0), HealPlan::NoLedger);
    assert_eq!(heal(Some(0), Some(5), &v, 0), HealPlan::Settled);
    let dear = view("0.90");
    let p = heal(Some(-5 * CT), Some(5), &dear, 0);
    assert!(matches!(p, HealPlan::NotYet { owed: 5, .. }), "{p:?}");
    let p = heal(Some(-5 * CT), Some(5), &dear, 10);
    assert!(matches!(p, HealPlan::Send { owed: 5, price: 910_000, forced: Some(_) }), "{p:?}");
    let p = heal(Some(-5 * CT), Some(5), &view("0.90005000000000000001"), 10);
    assert!(matches!(p, HealPlan::Send { price: 910_100, .. }), "rounded once, for the wire: {p:?}");
    let p = heal(Some(-5 * CT), Some(5), &view("0.90005"), 10);
    assert!(matches!(p, HealPlan::Send { price: 910_000, .. }), "a tie goes to the even one: {p:?}");
    let p = heal(Some(-5 * CT), Some(5), &view("none"), 10);
    assert_eq!(p, HealPlan::TouchNoPrice);
    let mut dark = view("0.20");
    dark.pm_ask = Vec::new();
    let p = heal(Some(-5 * CT), Some(5), &dark, 10);
    assert!(matches!(p, HealPlan::Dark { owed: 5, .. }), "{p:?}");
}

// ---------------------------------------------------------------- the lots

#[test]
fn a_group_is_refused_for_what_its_lots_do_not_share() {
    assert!(matches!(aggregate(&Vec::new()), Err(GroupRefusal::Empty)));
    let mut other = order(2.0, 1);
    other.limit = "0.9900".to_string();
    let r = aggregate(&vec![order(1.0, 1), other]);
    assert!(matches!(r, Err(GroupRefusal::Incompatible)), "{r:?}");
    let r = aggregate(&vec![order(1.0, i64::MAX), order(2.0, 1)]);
    assert!(matches!(r, Err(GroupRefusal::Overflow)), "{r:?}");
    let crosses = |ts: f64| {
        let mut o = order(ts, 1);
        o.cross = Some(Cross { limit: "0.20".to_string(), lock_ct: "0.03".to_string() });
        o
    };
    assert!(aggregate(&vec![crosses(1.0)]).is_ok());
    let r = aggregate(&vec![crosses(1.0), crosses(2.0)]);
    assert!(r.is_err(), "crossing plans remain apart: {r:?}");
}

fn hedge(change: impl Fn(&mut Order), v: &EngineView) -> Result<Px, HedgeRefusal> {
    let mut o = order(1.0, 5);
    change(&mut o);
    hedge_limit(&FeeSchedule::new(), &o, 5, v)
}

#[test]
fn a_hedge_is_refused_for_what_it_cannot_be_priced_by() {
    let v = view("0.20");
    let inverse = |o: &mut Order| o.direction = Direction::Inverse;
    let r = hedge(
        |o| {
            inverse(o);
            o.limit = "soon".to_string();
        },
        &v,
    );
    assert_eq!(r, Err(HedgeRefusal::InverseRest));
    let r = hedge(
        |o| {
            inverse(o);
            o.cross = Some(Cross { limit: "now".to_string(), lock_ct: "0.03".to_string() });
        },
        &v,
    );
    assert_eq!(r, Err(HedgeRefusal::InverseCross));
    let crossing = |limit: &str, k: &str, pm: &str| {
        let (limit, k, pm) = (limit.to_string(), k.to_string(), pm.to_string());
        move |o: &mut Order| {
            o.cross = Some(Cross { limit: limit.clone(), lock_ct: "0.03".to_string() });
            o.k_basis = k.clone();
            o.pm_basis = pm.clone();
        }
    };
    let r = hedge(crossing("now", "0.19", "0.78"), &v);
    assert_eq!(r, Err(HedgeRefusal::FirstNoPrice));
    let r = hedge(crossing("0.25", "some", "0.78"), &v);
    assert_eq!(r, Err(HedgeRefusal::KalshiBasisNoPrice));
    let r = hedge(crossing("0.25", "0.19", "more"), &v);
    assert_eq!(r, Err(HedgeRefusal::PmBasisNoPrice));
    let mut dark = view("0.20");
    dark.pm_ask = Vec::new();
    assert_eq!(hedge(crossing("0.25", "0.19", "0.78"), &dark), Err(HedgeRefusal::NoPmAsk));
    let r = hedge(crossing("0.25", "0.19", "0.78"), &view("0.60"));
    assert_eq!(r, Err(HedgeRefusal::AskAboveCeiling));
    let turned = |o: &mut Order| {
        crossing("0.20", "0.19", "0.78")(o);
        o.shape = Shape::RestPmUs;
    };
    let mut low = view("0.20");
    low.k_bid = vec![pair("K-a", "0.01")];
    assert_eq!(hedge(turned, &low), Err(HedgeRefusal::BidBelowFloor));
    low.k_bid = Vec::new();
    assert_eq!(hedge(turned, &low), Err(HedgeRefusal::NoKalshiBid));
    let r = hedge(crossing("0.02", "0.60", "0.95"), &v);
    assert!(matches!(r, Err(HedgeRefusal::Price(_))), "{r:?}");
    let r = hedge(|_| {}, &view("0.60"));
    assert!(matches!(r, Err(HedgeRefusal::Close(_))), "{r:?}");
    let fees = FeeSchedule::new();
    let lots = vec![order(1.0, 2), order(2.0, 3)];
    let r = group_hedge_limit(&fees, &lots, 0, 9, false, &v);
    assert_eq!(r, Err(HedgeRefusal::Share(ShareRefusal::Exceeds)));
    let r = group_hedge_limit(&fees, &lots, -1, 1, false, &v);
    assert_eq!(r, Err(HedgeRefusal::Share(ShareRefusal::Negative)));
    let r = group_hedge_limit(&fees, &lots, 5, 0, false, &v);
    assert_eq!(r, Err(HedgeRefusal::Empty));
}

fn at_work(clock: &mut IdClock) -> State {
    let mut s = State::new(&exit(1.0));
    reserve(&mut s, &vec![order(1.0, 5)], clock, WALL).expect("one order");
    s
}

/// A lot whose order the venue accepted.
fn accepted() -> State {
    let mut clock = IdClock::new();
    let mut s = at_work(&mut clock);
    let mut g = Gauges::new();
    let reply = SendReply::Accepted { id: "v1".to_string() };
    assert!(matches!(place_reply(&mut s, &mut g, reply), Placed::Accepted));
    s
}

#[test]
fn an_order_that_may_rest_is_retained() {
    let mut clock = IdClock::new();
    let mut s = at_work(&mut clock);
    let mut g = Gauges::new();
    assert!(matches!(place_reply(&mut s, &mut g, SendReply::Unknown), Placed::Retained));
    assert!(s.busy() && s.latched);
}

#[test]
fn a_resting_group_is_kept_pulled_or_cancelled() {
    let fees = FeeSchedule::new();
    let step = |filled: Option<i64>, v: Option<&EngineView>| {
        rest_step(&mut accepted(), &fees, filled, v)
    };
    let v = view("0.20");
    assert_eq!(step(Some(0), Some(&v)), RestStep::Keep);
    assert_eq!(step(None, Some(&v)), RestStep::Unreadable);
    assert_eq!(step(Some(0), None), RestStep::PullDark);
    assert_eq!(step(Some(2), Some(&v)), RestStep::Cancel);
    let p = step(Some(0), Some(&view("0.60")));
    assert!(matches!(p, RestStep::Pull { at: 0, .. }), "{p:?}");
}

#[test]
fn a_checkpoint_of_lots_that_make_no_group_is_refused() {
    let mut clock = IdClock::new();
    let mut s = at_work(&mut clock);
    let key = s.key();
    assert_eq!(check_loaded(&s, &key), None);
    let mut other = order(2.0, 5);
    other.limit = "0.9900".to_string();
    let a = s.active.as_mut().expect("active");
    a.allocations = vec![order(1.0, 5), other];
    assert_eq!(check_loaded(&s, &key), Some(LoadRefusal::Group(GroupRefusal::Incompatible)));
}

#[test]
fn a_share_of_more_than_is_there_is_not_booked() {
    let mut s = accepted();
    let a = s.active.as_mut().expect("active");
    a.filled = Some(5);
    a.hedged = 4;
    let mut clock = IdClock::new();
    let mut h = arb_trader::lot::Receipt::new(&mut clock, WALL, "0.20".to_string(), 5);
    h.id = Some("h1".to_string());
    a.hedge = Some(h);
    let r = bookings(a, 5);
    assert!(matches!(r, Err(BookRefusal::Share(ShareRefusal::Exceeds))), "{r:?}");
}

/// One pass over a lot, with the answers in turn.
fn advance(s: &mut State, v: Option<&EngineView>, mut answers: Vec<Event>) -> Result<End, Failure> {
    let fees = FeeSchedule::new();
    let mut clock = IdClock::new();
    let mut go = start(s, &fees, v, &mut clock, WALL);
    answers.reverse();
    loop {
        match go {
            Go::Done { end } => return Ok(end),
            Go::Failed { why } => return Err(why),
            Go::Wait { phase, act } => {
                let event = match (act, answers.pop()) {
                    (_, Some(e)) => e,
                    (Act::ReadPrices, None) => Event::Priced { rest: None, close: None },
                    (act, None) => panic!("no answer to {act:?}"),
                };
                go = next(s, phase, event, &fees, v, &mut clock, WALL);
            }
        }
    }
}

fn over(qty: i64) -> Event {
    Event::End { answered: TerminalReply::Over { qty } }
}

fn open() -> Event {
    Event::End { answered: TerminalReply::Open }
}

fn sent() -> Event {
    Event::Sent { reply: SendReply::Accepted { id: "h1".to_string() } }
}

#[test]
fn a_pass_over_a_lot_ends_where_it_should() {
    let v = view("0.20");
    let run = |answers: Vec<Event>| advance(&mut accepted(), Some(&v), answers);
    let r = run(vec![open(), Event::Fills { qty: Some(0) }]);
    assert!(matches!(r, Ok(End::Kept)), "{r:?}");
    let r = run(vec![over(0)]);
    assert!(matches!(r, Ok(End::NothingFilled)), "{r:?}");
    let priced = Event::Priced { rest: None, close: None };
    let r = run(vec![over(5), sent(), over(5), priced, Event::Booked { done: true }]);
    assert!(matches!(r, Ok(End::AllClosed)), "{r:?}");
    let mut clock = IdClock::new();
    let mut lost = State::new(&exit(1.0));
    reserve(&mut lost, &vec![order(1.0, 5)], &mut clock, WALL - 400_000_000).expect("one order");
    let absent = Event::Recovered { answer: RecoverReply::Absent };
    let r = advance(&mut lost, Some(&v), vec![absent]);
    assert!(matches!(r, Ok(End::NeverLanded)), "{r:?}");
}

#[test]
fn a_pass_over_a_lot_fails_for_what_it_could_not_learn() {
    let v = view("0.20");
    let run = |answers: Vec<Event>| advance(&mut accepted(), Some(&v), answers).expect_err("fails");
    let unread = || Event::End { answered: TerminalReply::Unreadable };
    let e = run(vec![unread()]);
    assert!(matches!(e, Failure::EndUnconfirmed), "{e:?}");
    let e = run(vec![open(), Event::Fills { qty: None }]);
    assert!(matches!(e, Failure::FillsUnread), "{e:?}");
    let e = run(vec![open(), Event::Fills { qty: Some(2) }, Event::Cancelled, open()]);
    assert!(matches!(e, Failure::NotOver), "{e:?}");
    let e = run(vec![over(5), Event::Sent { reply: SendReply::Rejected }]);
    assert!(matches!(e, Failure::HedgeRefused), "{e:?}");
    let e = run(vec![over(5), Event::Sent { reply: SendReply::Unknown }]);
    assert!(matches!(e, Failure::HedgeUnknown), "{e:?}");
    let e = run(vec![over(5), sent(), open()]);
    assert!(matches!(e, Failure::HedgeNotOver), "{e:?}");
    let booked = |done: bool| Event::Booked { done };
    let priced = || Event::Priced { rest: None, close: None };
    let e = run(vec![over(5), sent(), over(2), priced(), booked(true)]);
    assert!(matches!(e, Failure::HedgeOwes { qty: 3 }), "{e:?}");
    let e = run(vec![over(5), sent(), over(5), priced(), booked(false)]);
    assert!(matches!(e, Failure::NotBooked), "{e:?}");
    let e = advance(&mut accepted(), None, vec![over(5)]).expect_err("no view");
    assert!(matches!(e, Failure::NoView), "{e:?}");
    let dear = view("0.60");
    let e = advance(&mut accepted(), Some(&dear), vec![over(5)]).expect_err("it does not pay");
    assert!(matches!(e, Failure::Waits { .. }), "{e:?}");
    let mut dark = view("0.20");
    dark.pm_ask = Vec::new();
    let mut tried = accepted();
    tried.active.as_mut().expect("active").attempts = 10;
    let e = advance(&mut tried, Some(&dark), vec![over(5)]).expect_err("no book");
    assert!(matches!(e, Failure::Stuck { .. }), "{e:?}");
    let mut clock = IdClock::new();
    let mut unclear = at_work(&mut clock);
    let answer = Event::Recovered { answer: RecoverReply::Unclear };
    let e = advance(&mut unclear, Some(&v), vec![answer]).expect_err("unconfirmed");
    assert!(matches!(e, Failure::Unconfirmed { hedge: false }), "{e:?}");
    let mut keyless = accepted();
    let a = keyless.active.as_mut().expect("active");
    a.allocations = vec![order(1.0, 2), order(2.0, 3)];
    a.filled = Some(5);
    let mut h = arb_trader::lot::Receipt::new(&mut clock, WALL, "0.20".to_string(), 5);
    h.id = Some("h1".to_string());
    a.hedge = Some(h);
    let e = advance(&mut keyless, Some(&v), vec![over(5), priced()]).expect_err("no number");
    assert!(matches!(e, Failure::Unbookable { refusal: BookRefusal::NoNumber }), "{e:?}");
}
