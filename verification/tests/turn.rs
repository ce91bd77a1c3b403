//! Whole turns of the batch scheduler.
use arb_trader::board::EngineView;
use arb_trader::decide::Exit;
use arb_trader::depth::fit;
use arb_trader::fees::FeeSchedule;
use arb_trader::ids::IdClock;
use arb_trader::keys::group_key;
use arb_trader::lot::State;
use arb_trader::lot_steps::reserve;
use arb_trader::order::Order;
use arb_trader::turn::{begin, next, take_in, Act, Event, Stage, Turn};
use arb_trader::venue::{Direction, Shape};

/// What the closes of these tests trade against.
const LADDER: &str = "polymarket_us:p-a:ask";

fn pair(a: &str, b: &str) -> (String, String) {
    (a.to_string(), b.to_string())
}

fn view(pm_ask: &str) -> EngineView {
    EngineView {
        apr_bar: 16_000_000,
        global_cap_usd: 500_000_000,
        pm_ask: vec![pair("p-a", pm_ask)],
        pm_bid: vec![pair("p-a", "0.1900")],
        k_bid: vec![pair("K-a", "0.2000")],
        k_ask: Vec::new(),
        k_ladder: Vec::new(),
        depth: Vec::new(),
        suppressed_at: Vec::new(),
    }
}

fn order(ts: f64, qty: i64) -> Order {
    Order {
        rel_id: "r1".to_string(),
        shape: Shape::RestKalshi,
        direction: Direction::Standard,
        market: "K-a".to_string(),
        pm_market: "p-a".to_string(),
        qty,
        limit: "0.2500".to_string(),
        closes_ts: ts.to_bits(),
        k_basis: "0.190000".to_string(),
        pm_basis: "0.780000".to_string(),
        pm_ask_at_decision: "0.20".to_string(),
        lock_ct: "0.0100".to_string(),
        cross: None,
        runner_up_ct: None,
    }
}

fn exit(ts: f64) -> Exit {
    Exit {
        rel_id: "r1".to_string(),
        market_id: "K-a".to_string(),
        opened_ts: ts.to_bits(),
        qty: 5,
        actionable: true,
    }
}

fn exits(ts: &[f64]) -> Vec<Exit> {
    ts.iter().map(|t| exit(*t)).collect()
}

/// A lot whose order reserves the given lots, itself first.
fn at_work(ts: &[f64]) -> State {
    let mut s = State::new(&exit(ts[0]));
    let members: Vec<Order> = ts.iter().map(|t| order(*t, 5)).collect();
    let mut clock = IdClock::new();
    reserve(&mut s, &members, &mut clock, 1_784_646_659_716_000).expect("one order");
    s
}

fn sorted(mut lots: Vec<State>) -> Vec<State> {
    lots.sort_by_key(|l| l.key());
    lots
}

struct Run {
    lots: Vec<State>,
    outstanding: u64,
    view: Option<EngineView>,
    /// What each lot would rest, by its opening time.
    plans: Vec<(f64, Order)>,
    /// What was done, in turn.
    log: Vec<String>,
    turn: Option<Turn>,
}

impl Run {
    fn new(lots: Vec<State>) -> Run {
        Run {
            lots: sorted(lots),
            outstanding: 0,
            view: Some(view("0.20")),
            plans: Vec::new(),
            log: Vec::new(),
            turn: None,
        }
    }

    fn plan(mut self, orders: Vec<Order>) -> Run {
        self.plans = orders.into_iter().map(|o| (f64::from_bits(o.closes_ts), o)).collect();
        self
    }

    fn opened(&self, at: usize) -> f64 {
        f64::from_bits(self.lots[at].opened_bits)
    }

    fn go(&mut self, found: &[f64]) {
        let fees = FeeSchedule::new();
        let (mut turn, mut act) = begin(&self.lots);
        loop {
            let event = match act {
                Act::Rest => break,
                Act::Halt => {
                    self.log.push("halt".to_string());
                    break;
                }
                Act::Manage { at } => {
                    self.log.push(format!("manage {}", self.opened(at)));
                    Event::Managed
                }
                Act::Scan => {
                    self.log.push("scan".to_string());
                    Event::Scanned { exits: exits(found) }
                }
                Act::Price { at } => {
                    let ts = self.opened(at);
                    let plan = self.plans.iter().find(|p| p.0 == ts).map(|p| p.1.clone());
                    let order = plan.and_then(|mut o| {
                        if let Some(v) = &self.view {
                            o.qty = fit(o.qty, v, &turn.claims, LADDER);
                        }
                        Some(o).filter(|o| o.qty > 0)
                    });
                    Event::Priced { order }
                }
                Act::TakeOff { at } => {
                    let a = self.lots[at].active.as_ref().expect("an order is out");
                    assert!(a.regroup, "it was asked to come off");
                    self.log.push(format!("take off {}", self.opened(at)));
                    Event::Worked
                }
                Act::Place { at, members } => {
                    assert!(!self.lots[at].busy());
                    assert_eq!(self.lots[at].opened_bits, members[0].closes_ts);
                    let qty: i64 = members.iter().map(|m| m.qty).sum();
                    self.log.push(format!("place {qty} under {}", self.opened(at)));
                    let mut clock = IdClock::new();
                    let _ = reserve(&mut self.lots[at], &members, &mut clock, 1).expect("one order");
                    Event::Worked
                }
            };
            let v = self.view.as_ref();
            act = next(&mut turn, &mut self.lots, event, self.outstanding, &fees, v);
        }
        assert_eq!(turn.stage, Stage::Over);
        self.turn = Some(turn);
    }
}

#[test]
fn lots_with_equal_quotes_rest_as_one_order_under_the_oldest() {
    let mut dear = order(3.0, 2);
    dear.limit = "0.9900".to_string();
    let mut r = Run::new(Vec::new()).plan(vec![order(2.0, 7), dear, order(1.0, 3)]);
    r.go(&[3.0, 2.0, 1.0]);
    assert_eq!(r.log[0], "scan");
    let mut placed = r.log[1..].to_vec();
    placed.sort();
    assert_eq!(placed, vec!["place 10 under 1", "place 2 under 3"]);
    let t = r.turn.as_ref().expect("a turn");
    let claims: i64 = t.claims.iter().map(|c| c.1).sum();
    assert_eq!((t.claims.len(), claims), (1, 12), "one ladder backs them all");
}

#[test]
fn known_orders_are_looked_after_before_anything_new() {
    let mut r = Run::new(vec![at_work(&[1.0]), State::new(&exit(4.0))]);
    r.go(&[4.0]);
    assert_eq!(r.log, vec!["manage 1", "scan"]);
}

#[test]
fn a_lot_that_another_order_reserved_is_not_priced() {
    let lots = vec![at_work(&[1.0, 2.0]), State::new(&exit(2.0))];
    let mut plan = order(2.0, 5);
    plan.limit = "0.9900".to_string();
    let mut r = Run::new(lots).plan(vec![plan]);
    r.go(&[2.0]);
    assert_eq!(r.log, vec!["manage 1", "scan"], "the reserved lot rests nothing of its own");
    let t = r.turn.as_ref().expect("a turn");
    assert_eq!(t.reserved.len(), 2);
    assert_eq!(t.claims.iter().map(|c| c.1).sum::<i64>(), 10, "its group claims for both");
}

#[test]
fn a_lot_reserved_twice_halts_the_turn() {
    let mut r = Run::new(vec![at_work(&[1.0, 2.0]), at_work(&[2.0])]);
    r.go(&[]);
    assert_eq!(r.log, vec!["halt"], "no order is looked after");
}

#[test]
fn a_new_lot_joins_after_the_resting_order_came_off() {
    let mut r = Run::new(vec![at_work(&[1.0])]).plan(vec![order(2.0, 7)]);
    r.go(&[2.0]);
    assert_eq!(r.log, vec!["manage 1", "scan", "take off 1"], "nothing rests beside it");
    assert_eq!(r.lots.len(), 2);
}

#[test]
fn nothing_new_rests_while_a_leg_is_naked_or_where_it_pays_no_more() {
    let mut r = Run::new(Vec::new()).plan(vec![order(1.0, 3)]);
    r.outstanding = 1;
    r.go(&[1.0]);
    assert_eq!(r.log, vec!["scan"]);
    let mut r = Run::new(Vec::new()).plan(vec![order(1.0, 3)]);
    r.view = Some(view("0.60"));
    r.go(&[1.0]);
    assert_eq!(r.log, vec!["scan"]);
    let mut r = Run::new(Vec::new()).plan(vec![order(1.0, 3)]);
    r.view = None;
    r.go(&[1.0]);
    assert_eq!(r.log, vec!["scan"]);
}

#[test]
fn a_candidate_is_taken_in_once_and_in_the_order_of_the_keys() {
    let mut lots = sorted(vec![at_work(&[1.0])]);
    take_in(&mut lots, &exits(&[2.0, 1.0, 2.0, 3.0]));
    assert_eq!(lots.len(), 3);
    let keys: Vec<String> = lots.iter().map(|l| l.key()).collect();
    let mut up = keys.clone();
    up.sort();
    assert_eq!(keys, up);
    let busy: Vec<bool> = lots.iter().filter(|l| l.busy()).map(|l| l.busy()).collect();
    assert_eq!(busy, vec![true], "the lot at work stays as it was");
    let text = group_key(&order(1.0, 1));
    assert_eq!(lots.iter().filter(|l| l.passive_key() == Some(text.clone())).count(), 1);
}

#[test]
fn all_lots_of_a_turn_share_one_budget_of_their_ladder() {
    let mut r = Run::new(Vec::new()).plan(vec![order(1.0, 5), order(2.0, 5), order(3.0, 5)]);
    r.view.as_mut().expect("a view").depth = vec![(LADDER.to_string(), 7)];
    r.go(&[1.0, 2.0, 3.0]);
    let t = r.turn.as_ref().expect("a turn");
    assert_eq!(t.claims, vec![(LADDER.to_string(), 7)], "no more than the ladder holds");
    assert_eq!(t.plans.iter().map(|o| o.qty).sum::<i64>(), 7);
    assert!(r.log.iter().any(|l| l.starts_with("place 7 under")), "{:?}", r.log);
}

#[test]
fn what_rests_is_taken_off_the_budget_first() {
    let mut fresh = order(2.0, 5);
    fresh.limit = "0.2600".to_string();
    let mut r = Run::new(vec![at_work(&[1.0])]).plan(vec![fresh]);
    r.view.as_mut().expect("a view").depth = vec![(LADDER.to_string(), 7)];
    r.go(&[2.0]);
    assert!(r.log.contains(&"place 2 under 2".to_string()), "{:?}", r.log);
}
