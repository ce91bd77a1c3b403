//! Whole passes over the exit slot, against venues that answer from a script.
use arb_trader::board::EngineView;
use arb_trader::closing::HEAL_PROFITABLE_CYCLES;
use arb_trader::exit::{
    FillRead, HealPlan, ManageStep, NetRead, PlaceReply, Vanished, VANISHED_MIN_AGE_NS,
};
use arb_trader::gauges::{healed, outstanding, placed, unresolved, Gauges};
use arb_trader::ids::{client_order_id, IdClock};
use arb_trader::lines;
use arb_trader::live::{Live, PendingClose, Resting};
use arb_trader::order::{sinks, Cross, Order};
use arb_trader::slot::{
    look_after, mend, next, open_exit, take_off, Act, Around, Event, Found, Go, ToBook, Wait,
};
use arb_trader::standoff::{arm_standoff, publish_working, working_check, StandOff};
use arb_trader::venue::{Direction, Shape};

const SECOND: u64 = 1_000_000_000;
const NOW: u64 = 1_000_000 * SECOND;
/// A contract, in the units of a net position.
const CT: i64 = 1_000_000;

fn pair(a: &str, b: &str) -> (String, String) {
    (a.to_string(), b.to_string())
}

fn view_with(pm_ask: &str, pm_bid: &str, k_bid: &str) -> EngineView {
    EngineView {
        apr_bar: 16_000_000,
        global_cap_usd: 500_000_000,
        pm_ask: vec![pair("p-a", pm_ask)],
        pm_bid: vec![pair("p-a", pm_bid)],
        k_bid: vec![pair("K-a", k_bid)],
        k_ask: Vec::new(),
        k_ladder: Vec::new(),
        depth: Vec::new(),
        suppressed_at: Vec::new(),
    }
}

fn view(pm_ask: &str) -> EngineView {
    view_with(pm_ask, "0.10", "0.2000")
}

fn order(qty: i64) -> Order {
    Order {
        rel_id: "r1".to_string(),
        shape: Shape::RestKalshi,
        direction: Direction::Standard,
        market: "K-a".to_string(),
        pm_market: "p-a".to_string(),
        qty,
        limit: "0.2500".to_string(),
        closes_ts: 1.0f64.to_bits(),
        k_basis: "0.190000".to_string(),
        pm_basis: "0.780000".to_string(),
        pm_ask_at_decision: "0.20".to_string(),
        lock_ct: "0.0100".to_string(),
        cross: None,
        runner_up_ct: None,
    }
}

fn pmus_order(qty: i64) -> Order {
    let mut o = order(qty);
    o.shape = Shape::RestPmUs;
    o
}

/// A venue that answers from a script and writes down what it was asked.
#[derive(Default)]
struct Fake {
    fills: Vec<i64>,
    fill_status: Option<u16>,
    /// What it says is held, by market; `None` where it refuses to say.
    net: Option<Vec<(String, i64)>>,
    loses_orders: bool,
    log: Vec<String>,
}

impl Fake {
    fn with_fills(v: &[i64]) -> Fake {
        Fake { fills: v.to_vec(), ..Fake::default() }
    }

    fn holding(mut self, market: &str, contracts: i64) -> Fake {
        self.net = Some(vec![(market.to_string(), contracts * CT)]);
        self
    }

    fn refusing(mut self, status: u16) -> Fake {
        self.fill_status = Some(status);
        self
    }

    fn filled_qty(&mut self) -> Result<i64, u16> {
        if let Some(e) = self.fill_status {
            self.log.push(format!("filled_qty -> ERR {e}"));
            return Err(e);
        }
        let n = if self.fills.len() > 1 {
            self.fills.remove(0)
        } else {
            self.fills.first().copied().unwrap_or(0)
        };
        self.log.push(format!("filled_qty -> {n}"));
        Ok(n)
    }

    fn net_of(&mut self, market: &str) -> NetRead {
        self.log.push("net_positions".to_string());
        match &self.net {
            None => NetRead::Unreadable,
            Some(m) => match m.iter().find(|x| x.0 == market) {
                None => NetRead::NoRow,
                Some(x) => NetRead::Row { net: x.1 },
            },
        }
    }

    fn placed(&self) -> Vec<&String> {
        self.log.iter().filter(|c| c.starts_with("place")).collect()
    }
}

struct Desk {
    live: Live,
    gauges: Gauges,
    k: Fake,
    p: Fake,
    /// What the ledger's open lots come to on a market; `None` where it cannot
    /// be read.
    open: Option<i64>,
    booked: Vec<ToBook>,
    alarms: Vec<String>,
    /// What the pass waited for, in turn.
    waits: Vec<String>,
}

impl Desk {
    fn new(k: Fake, p: Fake, open: i64) -> Desk {
        Desk {
            live: Live::new(false, "trades.jsonl".to_string()),
            gauges: Gauges::new(),
            k,
            p,
            open: Some(open),
            booked: Vec::new(),
            alarms: Vec::new(),
            waits: Vec::new(),
        }
    }

    fn rest(mut self, o: Order, age_ns: u64) -> Desk {
        self.live.resting = Some(Resting {
            order: o,
            venue_order_id: "v1".to_string(),
            client_order_id: "x1".to_string(),
            since: NOW - age_ns,
        });
        self
    }

    fn latched(mut self, attempts: u32) -> Desk {
        self.live.pending =
            Some(PendingClose { order: order(5), filled: 5, since: NOW, attempts });
        self.gauges.note_unresolved();
        self
    }

    fn on(&mut self, market: &str) -> &mut Fake {
        if market == "K-a" {
            &mut self.k
        } else {
            &mut self.p
        }
    }

    /// The market that the pass asks about.
    fn market_of(&self, wait: &Wait) -> String {
        let o: &Order = match wait {
            Wait::Fill | Wait::Vanish | Wait::Cancel { .. } | Wait::Reread { .. } => {
                let o = &self.live.resting.as_ref().expect("it rests").order;
                return o.rest_market().to_string();
            }
            Wait::Heal | Wait::HealSent { .. } | Wait::HealFill { .. } => {
                let o = &self.live.pending.as_ref().expect("it is owed").order;
                return o.close_market().to_string();
            }
            Wait::Pulled { r } => return r.order.rest_market().to_string(),
            Wait::CloseSent { r, .. } | Wait::CloseFill { r, .. } | Wait::ClosePrices { r, .. } => {
                &r.order
            }
            Wait::HealPrice { p, .. } => &p.order,
            Wait::Placed { order, .. } | Wait::CrossSent { order, .. } => {
                return order.rest_market().to_string()
            }
            Wait::CrossFill { order, .. } => return order.rest_market().to_string(),
        };
        o.close_market().to_string()
    }

    fn perform(&mut self, wait: &Wait, act: Act) -> Event {
        let market = self.market_of(wait);
        let open = self.open;
        match act {
            Act::ReadFill => {
                let answer = self.on(&market).filled_qty();
                if let Wait::Reread { .. } = wait {
                    return Event::Count { n: answer.ok() };
                }
                let read = match answer {
                    Ok(qty) => FillRead::Filled { qty },
                    Err(e) => FillRead::Failed { status: Some(e) },
                };
                Event::Fill { read }
            }
            Act::ReadNet => {
                let net = self.on(&market).net_of(&market);
                Event::Net { expected: open, net }
            }
            Act::Cancel => {
                self.on(&market).log.push("cancel".to_string());
                Event::Cancelled { done: true }
            }
            Act::Send { req } => {
                let venue = self.on(&req.market);
                venue.log.push(format!("place {} {}x @{}", req.market, req.qty, req.price));
                let reply = if venue.loses_orders {
                    PlaceReply::Lost
                } else {
                    PlaceReply::Accepted { id: "v2".to_string() }
                };
                Event::Sent { reply }
            }
            Act::Count => Event::Count { n: self.on(&market).filled_qty().ok() },
            Act::ReadPrices => Event::Priced { rest: None, close: None },
        }
    }

    fn run(&mut self, mut go: Go, v: &EngineView) {
        let mut clock = IdClock::new();
        loop {
            match go {
                Go::Done { book } => {
                    self.booked.extend(book);
                    return;
                }
                Go::Ask { wait, act } => {
                    let text = format!("{wait:?}");
                    let name = text.split([' ', '{']).next().expect("a name").to_string();
                    self.waits.push(name);
                    let event = self.perform(&wait, act);
                    let client = client_order_id(&mut clock, 2);
                    let by = Around {
                        view: v,
                        client: &client,
                        opened: "1",
                        why: "it was refused",
                        polls: 2,
                        now: NOW,
                        park_ns: 600 * SECOND,
                    };
                    let step = next(&mut self.live, &mut self.gauges, wait, event, &by);
                    self.alarms.extend(step.excess);
                    self.alarms.extend(step.naked);
                    go = step.go;
                }
            }
        }
    }

    fn manage(&mut self, v: &EngineView) {
        let go = look_after(&self.live);
        self.run(go, v);
    }

    fn heal(&mut self, v: &EngineView) {
        let go = mend(&self.live);
        self.run(go, v);
    }
}

// ------------------------------------------------------- the vanished order

#[test]
fn a_404_on_a_long_resting_exit_frees_the_slot_when_venue_truth_says_it_sold_nothing() {
    let k = Fake::with_fills(&[0]).refusing(404).holding("K-a", 5);
    let mut d =
        Desk::new(k, Fake::with_fills(&[0]), 5).rest(order(5), VANISHED_MIN_AGE_NS + SECOND);
    d.manage(&view("0.20"));
    assert!(d.live.resting.is_none(), "the slot must be freed");
    assert!(d.k.log.iter().any(|c| c == "net_positions"), "venue truth: {:?}", d.k.log);
    assert!(d.p.log.is_empty(), "no close leg: {:?}", d.p.log);
    assert!(d.booked.is_empty(), "no unwind record");
    let out = lines::vanished_unsold(&order(5), "v1", 61, 5, 5);
    assert!(out.contains("vanished"), "{out}");
    assert!(out.contains("sold nothing"), "and it says how it knows: {out}");
}

#[test]
fn a_404_after_a_fill_closes_the_shortfall_venue_truth_reveals() {
    let k = Fake::with_fills(&[0]).refusing(404).holding("K-a", 2);
    let mut d =
        Desk::new(k, Fake::with_fills(&[3]), 5).rest(order(5), VANISHED_MIN_AGE_NS + SECOND);
    d.manage(&view("0.20"));
    assert!(d.p.log[0].starts_with("place p-a 3x"), "closed the shortfall: {:?}", d.p.log);
    assert!(
        !d.k.log.iter().any(|c| c == "cancel"),
        "nothing to cancel on an order the venue does not have: {:?}",
        d.k.log
    );
    assert_eq!(d.booked.len(), 1);
    assert_eq!(d.booked[0].qty, 3, "the shortfall, not the whole ask");
    assert!(d.live.resting.is_none(), "a spent exit is not polled again");
    let out = lines::vanished_sold(&order(5), "SOLD", 2, 5, 3);
    assert!(out.contains("SOLD"), "{out}");
}

#[test]
fn a_404_whose_positions_read_fails_holds_the_slot_rather_than_assuming() {
    let k = Fake::with_fills(&[0]).refusing(404);
    let mut d =
        Desk::new(k, Fake::with_fills(&[0]), 5).rest(order(5), VANISHED_MIN_AGE_NS + SECOND);
    d.manage(&view("0.20"));
    assert!(d.live.resting.is_some(), "no evidence, no release");
    assert!(d.p.log.is_empty(), "nothing closed on a guess");
    let out = lines::vanished_no_positions(&order(5), "not wired");
    assert!(out.contains("holding the slot"), "{out}");
    assert!(out.contains("SAFELY"), "and says the stall is the safe side: {out}");
}

#[test]
fn a_404_on_a_pmus_exit_whose_positions_map_lacks_the_slug_holds_the_slot() {
    let p = Fake::with_fills(&[0]).refusing(404).holding("p-other", -3);
    let mut d =
        Desk::new(Fake::with_fills(&[0]), p, 51).rest(pmus_order(5), VANISHED_MIN_AGE_NS + SECOND);
    d.manage(&view("0.20"));
    assert!(d.live.resting.is_some(), "a dropped row is not evidence of a sale");
    assert!(d.k.log.is_empty(), "nothing crossed on Kalshi: {:?}", d.k.log);
    assert!(d.booked.is_empty(), "no phantom unwind record");
    let out = lines::vanished_degraded(&pmus_order(5), 51);
    assert!(out.contains("NO ROW"), "{out}");
    assert!(out.contains("DEGRADED"), "and names the quirk, not a fill: {out}");
}

#[test]
fn a_404_whose_shortfall_exceeds_the_order_holds_the_slot() {
    let k = Fake::with_fills(&[0]).refusing(404).holding("K-a", 40);
    let mut d =
        Desk::new(k, Fake::with_fills(&[0]), 51).rest(order(5), VANISHED_MIN_AGE_NS + SECOND);
    d.manage(&view("0.20"));
    assert!(d.live.resting.is_some(), "11 gone is not this order's doing");
    assert!(d.p.log.is_empty(), "no close leg: {:?}", d.p.log);
    assert!(d.booked.is_empty(), "nothing booked");
    let out = lines::vanished_too_much(&order(5), 40, 51, 11);
    assert!(out.contains("MORE than the 5"), "{out}");
}

#[test]
fn a_404_on_a_pmus_exit_that_bought_nothing_frees_the_slot() {
    // We hold all 5 NO, a yes-count of -5: the bid went unfilled.
    let p = Fake::with_fills(&[0]).refusing(404).holding("p-a", -5);
    let mut d =
        Desk::new(Fake::with_fills(&[0]), p, 5).rest(pmus_order(5), VANISHED_MIN_AGE_NS + SECOND);
    d.manage(&view("0.20"));
    assert!(d.live.resting.is_none(), "sold nothing, slot freed");
    assert!(d.k.log.is_empty(), "no close leg: {:?}", d.k.log);
}

#[test]
fn a_404_on_a_freshly_rested_exit_is_held_not_forgotten() {
    let k = Fake::with_fills(&[0]).refusing(404).holding("K-a", 5);
    let mut d =
        Desk::new(k, Fake::with_fills(&[0]), 5).rest(order(5), VANISHED_MIN_AGE_NS - SECOND);
    d.manage(&view("0.20"));
    assert!(d.live.resting.is_some(), "too young to call gone");
    assert!(
        !d.k.log.iter().any(|c| c == "net_positions"),
        "and it does not spend a positions read to find that out: {:?}",
        d.k.log
    );
    let out = lines::fill_unread(&order(5), "not found");
    assert!(out.contains("could not read the fill state"), "{out}");
}

#[test]
fn a_non_404_refusal_holds_however_old_the_exit_is() {
    let k = Fake::with_fills(&[0]).refusing(503).holding("K-a", 5);
    let mut d =
        Desk::new(k, Fake::with_fills(&[0]), 5).rest(order(5), VANISHED_MIN_AGE_NS * 100);
    d.manage(&view("0.20"));
    assert!(d.live.resting.is_some(), "a 503 is not evidence the order is gone");
    assert!(d.p.log.is_empty());
}

// ------------------------------------------------------------- the fill path

#[test]
fn a_partial_fill_cancels_the_remainder_before_closing_and_re_reads_the_count() {
    // 2 filled on the first read, 3 by the time the cancel lands.
    let mut d = Desk::new(Fake::with_fills(&[2, 3]), Fake::with_fills(&[3]), 5).rest(order(5), 0);
    d.manage(&view("0.20"));
    let cancel_at = d.k.log.iter().position(|c| c == "cancel").expect("a cancel");
    assert_eq!(cancel_at, 1, "the cancel must follow the first read: {:?}", d.k.log);
    assert_eq!(d.k.log.len(), 3, "and a second read must follow the cancel: {:?}", d.k.log);
    assert_eq!(d.k.log[2], "filled_qty -> 3", "{:?}", d.k.log);
    assert!(d.p.log[0].starts_with("place p-a 3x"), "closed the wrong size: {:?}", d.p.log);
    assert!(d.live.resting.is_none(), "a spent exit must not be polled next cycle");
    assert_eq!(d.booked.len(), 1);
    assert_eq!(d.booked[0].qty, 3);
    assert_eq!(f64::from_bits(d.booked[0].order.closes_ts), 1.0);
    assert_eq!(
        d.waits,
        ["Fill", "Cancel", "Reread", "CloseSent", "CloseFill", "ClosePrices"]
    );
    let out = lines::filled_partly(&order(5), 2);
    assert!(out.contains("cancelling the remainder"), "{out}");
}

#[test]
fn a_rest_pmus_partial_fill_re_reads_pmus_and_never_touches_kalshi() {
    let mut d =
        Desk::new(Fake::with_fills(&[3]), Fake::with_fills(&[2, 3]), 5).rest(pmus_order(5), 0);
    d.manage(&view_with("0.30", "0.24", "0.60"));
    let cancel_at = d.p.log.iter().position(|c| c == "cancel").expect("a cancel");
    assert_eq!(cancel_at, 1, "the cancel follows the first read: {:?}", d.p.log);
    assert_eq!(d.p.log.len(), 3, "and a second read follows the cancel: {:?}", d.p.log);
    assert_eq!(d.p.log[2], "filled_qty -> 3", "the re-read went to PM-US: {:?}", d.p.log);
    assert!(
        d.k.log[0].starts_with("place K-a 3x"),
        "Kalshi's first call must be the close for the re-read count: {:?}",
        d.k.log
    );
    assert!(d.live.resting.is_none(), "a spent exit must not be polled next cycle");
    assert_eq!(d.booked.len(), 1);
    assert_eq!(d.booked[0].qty, 3, "booked the re-read count, not the pre-cancel one");
    assert_eq!(d.booked[0].order.shape.tag(), "rest-pmus");
}

#[test]
fn an_unfilled_exit_rests_on_while_it_pays_and_is_pulled_when_it_stops() {
    let mut d = Desk::new(Fake::with_fills(&[0]), Fake::with_fills(&[0]), 5).rest(order(5), 0);
    d.manage(&view("0.20"));
    assert!(d.live.resting.is_some(), "a paying exit is left alone");
    assert!(!d.k.log.iter().any(|c| c == "cancel"), "{:?}", d.k.log);
    d.manage(&view("0.60"));
    assert!(d.live.resting.is_none(), "the ask is retired");
    assert!(d.k.log.iter().any(|c| c == "cancel"), "{:?}", d.k.log);
    assert!(d.live.unaddressable.is_empty());
}

#[test]
fn a_close_the_book_has_run_away_from_alarms_and_books_nothing() {
    let mut d = Desk::new(Fake::with_fills(&[5]), Fake::with_fills(&[0]), 5).rest(order(5), 0);
    d.manage(&view("0.90"));
    assert!(d.alarms[0].contains("NAKED AFTER EXIT"), "{:?}", d.alarms);
    assert_eq!(unresolved(&d.gauges), 1, "the must-stay-0 gauge moved");
    assert!(d.p.log.is_empty(), "no order at a price that loses: {:?}", d.p.log);
    assert!(d.booked.is_empty(), "a half-done unwind must not be booked");
    assert_eq!(d.live.pending.as_ref().map(|p| p.filled), Some(5), "it is handed over");
}

#[test]
fn a_close_that_fills_partly_books_its_part_and_hands_over_the_rest() {
    let mut d = Desk::new(Fake::with_fills(&[5]), Fake::with_fills(&[3]), 5).rest(order(5), 0);
    d.manage(&view("0.20"));
    assert_eq!(d.booked[0].qty, 3);
    assert_eq!(d.live.pending.as_ref().map(|p| p.filled), Some(2));
    assert_eq!(d.alarms.len(), 1);
}

#[test]
fn a_close_is_asked_for_its_fill_only_so_often() {
    let mut d = Desk::new(Fake::with_fills(&[5]), Fake::with_fills(&[0]), 5).rest(order(5), 0);
    d.manage(&view("0.20"));
    assert_eq!(d.p.log.iter().filter(|c| c.starts_with("filled_qty")).count(), 3);
    assert!(d.booked.is_empty());
    assert_eq!(d.live.pending.as_ref().map(|p| p.filled), Some(5));
}

#[test]
fn a_fill_above_the_order_is_closed_for_the_order_and_alarms() {
    let mut d = Desk::new(Fake::with_fills(&[7]), Fake::with_fills(&[5]), 5).rest(order(5), 0);
    d.manage(&view("0.20"));
    assert!(d.p.log[0].starts_with("place p-a 5x"), "{:?}", d.p.log);
    assert_eq!(d.booked[0].qty, 5);
    assert_eq!(d.alarms.len(), 1);
    assert_eq!(unresolved(&d.gauges), 1);
}

// ------------------------------------------------------------------ the heal

#[test]
fn a_heal_that_finds_nothing_owed_books_the_unwind_and_clears_the_latch() {
    let p = Fake::with_fills(&[0]).holding("p-a", 0);
    let mut d = Desk::new(Fake::default(), p, 5).latched(0);
    d.heal(&view("0.20"));
    assert!(d.live.pending.is_none(), "the latch is cleared");
    assert_eq!(healed(&d.gauges), 1);
    assert!(d.p.placed().is_empty(), "no order fixes what is already right: {:?}", d.p.log);
    assert_eq!(d.booked.len(), 1);
    assert_eq!(d.booked[0].qty, 5);
    let out = lines::healed_after_all(&order(5), 5);
    assert!(out.contains("completed after all"), "{out}");
}

#[test]
fn a_heal_that_cannot_read_positions_sends_nothing_and_stays_latched() {
    let mut d = Desk::new(Fake::default(), Fake::with_fills(&[0]), 5).latched(0);
    d.heal(&view("0.20"));
    assert!(d.live.pending.is_some(), "still latched");
    assert!(d.p.placed().is_empty(), "{:?}", d.p.log);
    let out = lines::heal_no_positions(&order(5), "not wired", 1);
    assert!(out.contains("no honest size"), "{out}");
}

#[test]
fn a_heal_inside_the_profitable_window_waits_rather_than_crossing() {
    let p = Fake::with_fills(&[0]).holding("p-a", -5);
    let mut d = Desk::new(Fake::default(), p, 5).latched(0);
    d.heal(&view("0.60"));
    assert!(d.live.pending.is_some(), "still owed, still latched");
    assert!(d.p.placed().is_empty(), "{:?}", d.p.log);
    let out = lines::heal_waits(&order(5), 5, "too dear", 1);
    assert!(out.contains("does not pay yet"), "{out}");
}

#[test]
fn a_heal_past_the_profitable_window_crosses_out_and_says_it_is_taking_a_loss() {
    let p = Fake::with_fills(&[5]).holding("p-a", -5);
    let mut d = Desk::new(Fake::default(), p, 5).latched(HEAL_PROFITABLE_CYCLES);
    d.heal(&view("0.60"));
    assert!(
        d.p.log.iter().any(|c| c.starts_with("place p-a 5x @0.61")),
        "one tick through the ask: {:?}",
        d.p.log
    );
    assert!(d.live.pending.is_none(), "flat, so the latch clears");
    assert_eq!(d.booked.len(), 1);
    assert_eq!(d.booked[0].close, "0.6100");
    let out = lines::heal_crosses(&order(5), 5, 11, "too dear", 610_000);
    assert!(out.contains("CROSSING OUT"), "{out}");
    assert!(out.contains("realises a loss"), "and it says so plainly: {out}");
}

#[test]
fn a_partial_heal_stays_latched_and_re_measures_next_cycle() {
    let p = Fake::with_fills(&[2]).holding("p-a", -5);
    let mut d = Desk::new(Fake::default(), p, 5).latched(HEAL_PROFITABLE_CYCLES);
    d.heal(&view("0.60"));
    assert!(d.live.pending.is_some(), "not flat, so not cleared");
    assert!(d.booked.is_empty(), "nothing booked yet");
    let out = lines::heal_short(&order(5), 2, 5, "0.6100");
    assert!(out.contains("filled 2 of 5"), "{out}");
}

#[test]
fn healing_leaves_the_incident_count_up_and_clears_only_the_latch() {
    let p = Fake::with_fills(&[0]).holding("p-a", 0);
    let mut d = Desk::new(Fake::default(), p, 5).latched(0);
    let (before, out_before) = (unresolved(&d.gauges), outstanding(&d.gauges));
    d.heal(&view("0.20"));
    assert_eq!(unresolved(&d.gauges), before, "the incident count does not fall");
    assert_eq!(outstanding(&d.gauges), out_before - 1, "but the latch clears");
}

// ------------------------------------------------------------- the new exits

#[test]
fn an_unaddressable_order_keeps_the_stand_off_on() {
    let mut s = StandOff::new();
    arm_standoff(&mut s);
    let k = Fake { loses_orders: true, ..Fake::default() };
    let mut d = Desk::new(k, Fake::default(), 5);
    d.run(open_exit(order(5), "x1"), &view("0.20"));
    assert!(d.live.resting.is_none(), "nothing addressable means nothing remembered");
    publish_working(&mut s, d.live.working_set(None), NOW);
    let why = working_check(&s, "K-a", NOW).expect_err("an ask of ours may be resting there");
    assert!(why.text("K-a").contains("K-a"), "{}", why.text("K-a"));
    let out = lines::place_lost(&order(5), "timed out", "x1", unresolved(&d.gauges));
    assert!(out.contains("PLACE DID NOT COMPLETE"), "{out}");
}

#[test]
fn a_new_exit_rests_until_it_is_taken_off() {
    let mut d = Desk::new(Fake::default(), Fake::default(), 5);
    d.run(open_exit(order(5), "x1"), &view("0.20"));
    assert_eq!(d.k.log, ["place K-a 5x @0.2500"]);
    assert_eq!(placed(&d.gauges), 1);
    assert!(d.live.resting.is_some());
    let go = take_off(&mut d.live);
    d.run(go, &view("0.20"));
    assert_eq!(d.k.log, ["place K-a 5x @0.2500", "cancel"]);
    assert!(d.live.resting.is_none());
}

#[test]
fn a_cross_closes_what_it_filled_at_once() {
    let mut o = order(5);
    o.cross = Some(Cross { limit: "0.2400".to_string(), lock_ct: "0.03".to_string() });
    let mut d = Desk::new(Fake::with_fills(&[4]), Fake::with_fills(&[4]), 5);
    d.run(open_exit(o, "x1"), &view("0.20"));
    assert_eq!(d.k.log[0], "place K-a 5x @0.2400");
    assert!(d.p.log[0].starts_with("place p-a 4x"), "sized to the fill: {:?}", d.p.log);
    assert_eq!(d.booked[0].qty, 4);
    assert_eq!(d.booked[0].rest, "0.2400", "the price it crossed at");
    assert!(d.live.resting.is_none(), "nothing rests");
}

#[test]
fn a_cross_that_did_not_fill_owes_nothing() {
    let mut o = order(5);
    o.cross = Some(Cross { limit: "0.2400".to_string(), lock_ct: "0.03".to_string() });
    let mut d = Desk::new(Fake::with_fills(&[0]), Fake::default(), 5);
    d.run(open_exit(o, "x1"), &view("0.20"));
    assert!(d.p.log.is_empty() && d.booked.is_empty() && d.live.pending.is_none());
    let mut o = order(5);
    o.cross = Some(Cross { limit: "0.2400".to_string(), lock_ct: "0.03".to_string() });
    let mut d = Desk::new(Fake::default().refusing(503), Fake::default(), 5);
    d.run(open_exit(o, "x1"), &view("0.20"));
    assert!(d.p.log.is_empty(), "nothing is closed against a fill nobody can see");
    assert_eq!(unresolved(&d.gauges), 1);
}

#[test]
fn a_step_says_what_it_found() {
    let mut d = Desk::new(Fake::with_fills(&[0]), Fake::default(), 5).rest(order(5), 60 * SECOND);
    let v = view("0.20");
    let by = Around {
        view: &v,
        client: "x2",
        opened: "1",
        why: "",
        polls: 2,
        now: NOW,
        park_ns: 0,
    };
    let read = FillRead::Failed { status: Some(503) };
    let step = next(&mut d.live, &mut d.gauges, Wait::Fill, Event::Fill { read }, &by);
    assert_eq!(step.found, Found::Looked { at: ManageStep::Hold });
    let net = NetRead::Row { net: 5 * CT };
    let event = Event::Net { expected: Some(5), net };
    let step = next(&mut d.live, &mut d.gauges, Wait::Vanish, event, &by);
    assert_eq!(step.found, Found::Traced { to: Vanished::TradedNothing });
    let mut d = Desk::new(Fake::default(), Fake::default(), 5).latched(0);
    let event = Event::Net { expected: None, net };
    let step = next(&mut d.live, &mut d.gauges, Wait::Heal, event, &by);
    assert_eq!(step.found, Found::Healing { by: HealPlan::NoLedger });
}

#[test]
fn an_exit_rests_on_one_venue_and_closes_on_the_other() {
    assert_eq!(sinks(Shape::RestKalshi, "k", "p"), ("k", "p"));
    assert_eq!(sinks(Shape::RestPmUs, "k", "p"), ("p", "k"));
}
