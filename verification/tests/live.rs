//! The debounce, the one slot, and whose turn it is.
use arb_trader::board::{
    engine_view, publish_view, request_suppress, suppress_requests, Board, EngineView, ViewRefusal,
};
use arb_trader::cycle::{hand_over, opening, resting_keys, wanted, Opening};
use arb_trader::debounce::{Debounce, CYCLE_S, DEBOUNCE_S, DEBOUNCE_SCANS};
use arb_trader::decide::Exit;
use arb_trader::gauges::{refused, Gauges};
use arb_trader::live::{Live, PendingClose, Resting, TargetRefusal, HANDOVER_CYCLES, MAX_RESTING_NS};
use arb_trader::order::Order;
use arb_trader::standoff::{
    arm_standoff, publish_working, working_check, StandOff, StandOffRefusal, WORKING_MAX_AGE_NS,
};
use arb_trader::venue::{Direction, Shape};

const SECOND: u64 = 1_000_000_000;
/// The wall clock of the first scan.
const T0: u64 = 1_000_000 * SECOND;
/// The process clock, well past any age that a test needs.
const NOW: u64 = 1_000_000 * SECOND;
const WINDOW: u64 = DEBOUNCE_S * SECOND;

fn cand_on(market: &str, qty: i64, opened_ts: f64) -> Exit {
    Exit {
        rel_id: "r1".to_string(),
        market_id: market.to_string(),
        opened_ts: opened_ts.to_bits(),
        qty,
        actionable: true,
    }
}

fn cand(qty: i64, opened_ts: f64) -> Exit {
    cand_on("K-a", qty, opened_ts)
}

fn order(qty: i64) -> Order {
    Order {
        rel_id: "r1".to_string(),
        shape: Shape::RestKalshi,
        direction: Direction::Standard,
        market: "K-a".to_string(),
        pm_market: "p-a".to_string(),
        qty,
        limit: "0.2500".to_string(),
        closes_ts: 1.0f64.to_bits(),
        k_basis: "0.190000".to_string(),
        pm_basis: "0.780000".to_string(),
        pm_ask_at_decision: "0.20".to_string(),
        lock_ct: "0.0100".to_string(),
        cross: None,
        runner_up_ct: None,
    }
}

fn stale_on(market: &str, qty: i64, age_ns: u64) -> Resting {
    let mut o = order(qty);
    o.market = market.to_string();
    Resting {
        order: o,
        venue_order_id: "v1".to_string(),
        client_order_id: "x1".to_string(),
        since: NOW - age_ns,
    }
}

fn stale(qty: i64, age_ns: u64) -> Resting {
    stale_on("K-a", qty, age_ns)
}

fn live() -> Live {
    Live::new(true, "/dev/null".to_string())
}

fn pick(l: &mut Live, c: &Vec<Exit>, wall: u64, outstanding: u64) -> Result<usize, TargetRefusal> {
    l.target(c, wall, NOW, outstanding)
}

/// Enough scans to admit every candidate.
fn warm(l: &mut Live, c: &Vec<Exit>) {
    for i in 0..4 {
        let _ = pick(l, c, T0 + i * WINDOW, 0);
    }
}

#[test]
fn a_one_sample_spike_never_reaches_the_venue_and_its_clock_restarts() {
    let mut d = Debounce::new();
    let c = vec![cand(10, 1.0)];
    assert!(d.admit_held(&c, T0).is_empty(), "the first sighting is never enough");
    assert!(d.admit_held(&Vec::new(), T0 + 120 * SECOND).is_empty());
    let t1 = T0 + 100_000 * SECOND;
    assert!(d.admit_held(&c, t1).is_empty(), "a returning spike is a new candidate");
    assert!(
        d.admit_held(&c, t1 + WINDOW).is_empty(),
        "two samples DEBOUNCE_S apart is not {DEBOUNCE_SCANS} scans"
    );
    let out = d.admit_held(&c, t1 + WINDOW + SECOND);
    assert_eq!(out.len(), 1, "held long enough, across enough scans: {out:?}");
}

#[test]
fn neither_the_clock_nor_the_scan_count_is_sufficient_alone() {
    let c = vec![cand(10, 1.0)];
    let mut d = Debounce::new();
    for i in 0..8 {
        assert!(
            d.admit_held(&c, T0 + i * 10 * SECOND).is_empty(),
            "8 scans over 70s is under DEBOUNCE_S ({DEBOUNCE_S})"
        );
    }
    let mut d = Debounce::new();
    assert!(d.admit_held(&c, T0).is_empty());
    assert!(
        d.admit_held(&c, T0 + WINDOW + SECOND).is_empty(),
        "2 scans is under DEBOUNCE_SCANS ({DEBOUNCE_SCANS})"
    );
}

#[test]
fn one_lots_persistence_does_not_admit_another_lot_on_the_same_relationship() {
    let mut d = Debounce::new();
    let old = vec![cand(10, 1784646659.716)];
    for i in 0..4 {
        d.admit_held(&old, T0 + i * WINDOW / 2);
    }
    let both = vec![cand(10, 1784646659.716), cand(10, 1784727137.511)];
    let out = d.admit_held(&both, T0 + 2 * WINDOW);
    let ids: Vec<f64> = out.iter().map(|e| f64::from_bits(e.opened_ts)).collect();
    assert_eq!(ids, vec![1784646659.716], "only the held lot: {ids:?}");
}

#[test]
fn the_debounce_is_the_time_its_scans_take() {
    assert_eq!(DEBOUNCE_S as f64, (DEBOUNCE_SCANS as f64 - 1.0) * CYCLE_S as f64);
    assert_eq!(DEBOUNCE_S as f64, 120.0, "two minutes");
}

#[test]
fn one_sample_is_never_admitted_however_old_the_clock() {
    let mut d = Debounce::new();
    let e = vec![cand(5, 1.0)];
    assert!(d.admit_held(&e, T0).is_empty(), "first sighting is never enough");
    assert!(
        d.admit_held(&e, T0 + 3600 * SECOND).is_empty(),
        "nor is the second, however stale"
    );
    let out = d.admit_held(&e, T0 + (3600 + CYCLE_S) * SECOND);
    assert_eq!(out.len(), 1, "three independent scans past the window admit it");
}

fn markets(out: Vec<&Exit>) -> Vec<&str> {
    out.into_iter().map(|e| e.market_id.as_str()).collect()
}

#[test]
fn what_an_unbroken_run_admits_keeps_its_order_and_stays_admitted() {
    let (a, b, c) = (cand_on("K-a", 5, 1.0), cand_on("K-b", 5, 2.0), cand_on("K-c", 5, 3.0));
    let mut d = Debounce::new();
    let at = |i: u64| T0 + i * CYCLE_S * SECOND;
    assert!(d.admit_held(&vec![b.clone(), a.clone()], at(0)).is_empty());
    assert!(d.admit_held(&vec![c.clone(), b.clone(), a.clone()], at(1)).is_empty());
    let given = vec![b.clone(), c.clone(), a.clone()];
    let third = d.admit_held(&given, at(2));
    assert_eq!(markets(third), ["K-b", "K-a"], "in the order in which they were given");
    let given = vec![a.clone(), c.clone(), b.clone()];
    let fourth = d.admit_held(&given, at(3));
    assert_eq!(markets(fourth), ["K-a", "K-c", "K-b"], "and a run that goes on is admitted again");
    let given = vec![a.clone(), b.clone()];
    let fifth = d.admit_held(&given, at(4));
    assert_eq!(markets(fifth), ["K-a", "K-b"]);
    let given = vec![a, b, c];
    let sixth = d.admit_held(&given, at(5));
    assert_eq!(markets(sixth), ["K-a", "K-b"], "one that was missing begins again");
}

#[test]
fn a_held_candidate_says_for_how_long() {
    let mut d = Debounce::new();
    let e = vec![cand(5, 1.0)];
    assert_eq!(d.held_ns(&e[0], T0), None);
    d.admit_held(&e, T0);
    assert_eq!(d.held_ns(&e[0], T0 + 7 * SECOND), Some(i128::from(7 * SECOND)));
}

#[test]
fn nothing_rests_while_an_exit_is_already_outstanding() {
    let mut l = live();
    let c = vec![cand(10, 1.0), cand(10, 2.0)];
    for i in 0..3 {
        let _ = pick(&mut l, &c, T0 + i * WINDOW, 0);
    }
    let e = pick(&mut l, &c, T0 + 3 * WINDOW, 0).expect("held long enough");
    assert_eq!(f64::from_bits(c[e].opened_ts), 1.0, "the first admitted candidate");
    l.resting = Some(stale(5, 0));
    let why = pick(&mut l, &c, T0 + 4 * WINDOW, 0).expect_err("one at a time").text();
    assert!(why.contains("already resting"), "{why}");
    assert!(why.contains("MAX_RESTING"), "and it names the cap: {why}");
}

#[test]
fn a_blocked_cycle_still_counts_as_a_scan() {
    let mut l = live();
    let c = vec![cand(10, 1.0)];
    l.resting = Some(stale(5, 0));
    warm(&mut l, &c);
    l.resting = None;
    let e = pick(&mut l, &c, T0 + 4 * WINDOW, 0).expect("the clock kept running");
    assert_eq!(c[e].rel_id, "r1");
}

#[test]
fn nothing_new_rests_while_a_naked_leg_is_unresolved() {
    let mut l = live();
    let g = Gauges::new();
    let c = vec![cand(10, 1.0)];
    for i in 0..3 {
        let _ = pick(&mut l, &c, T0 + i * WINDOW, 0);
    }
    let why = pick(&mut l, &c, T0 + 3 * WINDOW, 1).expect_err("one naked leg is enough").text();
    assert!(why.contains("1 naked leg(s) outstanding"), "it names the count: {why}");
    assert!(!why.contains("RESTARTED"), "no restart is promised: {why}");
    assert!(why.contains("`heal` IS WORKING ON IT"), "and says what clears it: {why}");
    assert_eq!(refused(&g), 0, "a halt must not move the refused gauge");
    let e = pick(&mut l, &c, T0 + 3 * WINDOW, 0).expect("held long enough");
    assert_eq!(c[e].rel_id, "r1");
}

#[test]
fn the_debounce_is_still_folded_while_halted() {
    let mut l = live();
    let c = vec![cand(10, 1.0)];
    for i in 0..3 {
        assert!(
            pick(&mut l, &c, T0 + i * WINDOW, 1).is_err(),
            "halted, and still scanning"
        );
    }
    let e = pick(&mut l, &c, T0 + 3 * WINDOW, 0).expect("the clock kept running");
    assert_eq!(c[e].rel_id, "r1");
}

fn two() -> Vec<Exit> {
    vec![cand(10, 1.0), cand_on("K-b", 10, 2.0)]
}

#[test]
fn a_stale_ask_gives_up_the_slot_when_other_candidates_are_waiting() {
    let mut l = live();
    let c = two();
    l.resting = Some(stale(5, MAX_RESTING_NS + SECOND));
    warm(&mut l, &c);
    let reason = l.rotate.take().expect("the slot has been held too long").text();
    assert!(reason.contains("held the only exit slot"), "{reason}");
    assert!(reason.contains("so one of them can have it"), "{reason}");
    l.resting = None;
    let next = pick(&mut l, &c, T0 + 4 * WINDOW, 0).expect("somebody takes the slot");
    assert_eq!(c[next].market_id, "K-b", "the rotated-out market must not win it back");
    let after = pick(&mut l, &c, T0 + 5 * WINDOW, 0).expect("still a candidate");
    assert_eq!(c[after].market_id, "K-b", "nothing rested, so the claim still stands");
}

#[test]
fn the_hand_over_survives_the_cycles_that_cannot_place() {
    let mut l = live();
    let c = two();
    l.resting = Some(stale(5, MAX_RESTING_NS + SECOND));
    warm(&mut l, &c);
    assert!(l.rotate.take().is_some(), "the slot has been held too long");
    l.resting = None;
    let e = pick(&mut l, &c, T0 + 5 * WINDOW, 0).expect("a candidate");
    assert_eq!(c[e].market_id, "K-b", "the slot changes hands");
    let e = pick(&mut l, &c, T0 + 6 * WINDOW, 0).expect("a candidate");
    assert_eq!(c[e].market_id, "K-b", "the incumbent must not reclaim it after a refusal");
}

#[test]
fn a_hand_over_nobody_takes_up_lapses_after_its_budget() {
    let mut l = live();
    let c = two();
    l.resting = Some(stale(5, MAX_RESTING_NS + SECOND));
    warm(&mut l, &c);
    assert!(l.rotate.take().is_some());
    l.resting = None;
    for i in 0..HANDOVER_CYCLES {
        let e = pick(&mut l, &c, T0 + (5 + u64::from(i)) * WINDOW, 0).expect("a candidate");
        assert_eq!(c[e].market_id, "K-b", "still the challenger's claim on selection {i}");
    }
    let e = pick(&mut l, &c, T0 + (5 + u64::from(HANDOVER_CYCLES)) * WINDOW, 0)
        .expect("a candidate");
    assert_eq!(c[e].market_id, "K-a", "the claim lapses and the incumbent may have it back");
    assert!(l.served.is_empty(), "and the claim is cleared, not merely ignored");
}

#[test]
fn a_rotated_out_market_is_chosen_again_when_it_is_the_only_one_left() {
    let mut l = live();
    let c = vec![cand(10, 1.0)];
    warm(&mut l, &c);
    l.served = vec!["K-a".to_string()];
    let e = pick(&mut l, &c, T0 + 4 * WINDOW, 0).expect("the only candidate");
    assert_eq!(c[e].market_id, "K-a");
    assert!(l.served.is_empty(), "the lap completed rather than leaving the slot empty");
}

#[test]
fn the_slot_laps_the_held_set_before_repeating() {
    let mut l = live();
    let c = vec![cand(10, 1.0), cand_on("K-b", 10, 2.0), cand_on("K-c", 10, 3.0)];
    l.resting = Some(stale(5, MAX_RESTING_NS + SECOND));
    warm(&mut l, &c);
    let mut tick = 4;
    let mut seen = Vec::new();
    for holder in ["K-a", "K-b", "K-c"] {
        l.resting = Some(stale_on(holder, 5, MAX_RESTING_NS + SECOND));
        let _ = pick(&mut l, &c, T0 + tick * WINDOW, 0);
        tick += 1;
        assert!(l.rotate.take().is_some(), "{holder} has held the slot too long");
        l.resting = None;
        let e = pick(&mut l, &c, T0 + tick * WINDOW, 0).expect("a candidate");
        tick += 1;
        seen.push(c[e].market_id.clone());
    }
    assert_eq!(
        seen,
        vec!["K-b".to_string(), "K-c".to_string(), "K-a".to_string()],
        "every held candidate takes a turn before the first repeats"
    );
}

#[test]
fn a_parked_market_at_the_head_of_the_queue_is_skipped_not_fatal() {
    let mut l = live();
    let c = two();
    warm(&mut l, &c);
    l.park("K-a", NOW, 600 * SECOND);
    assert!(l.is_parked("K-a", NOW));
    let e = pick(&mut l, &c, T0 + 4 * WINDOW, 0).expect("K-b is live and admitted");
    assert_eq!(c[e].market_id, "K-b");
    l.park("K-b", NOW, 600 * SECOND);
    let why = pick(&mut l, &c, T0 + 5 * WINDOW, 0).expect_err("nothing can take an order").text();
    assert!(why.contains("halted at the venue"), "{why}");
    assert!(why.contains("K-a") && why.contains("K-b"), "it names them: {why}");
}

#[test]
fn a_park_ends_and_its_strikes_add_up() {
    let mut l = live();
    assert_eq!(l.next_strikes("K-a"), 1);
    l.park("K-a", NOW, 600 * SECOND);
    assert_eq!(l.next_strikes("K-a"), 2);
    assert!(l.is_parked("K-a", NOW + 599 * SECOND));
    assert!(!l.is_parked("K-a", NOW + 600 * SECOND));
    assert!(!l.is_parked("K-b", NOW));
}

#[test]
fn a_stale_ask_keeps_its_queue_position_when_nothing_else_wants_the_slot() {
    let mut l = live();
    let c = vec![cand(10, 1.0)];
    l.resting = Some(stale(5, MAX_RESTING_NS * 10));
    warm(&mut l, &c);
    assert!(l.rotate.is_none(), "an uncontested slot is not scarce");
}

#[test]
fn a_young_ask_is_not_rotated_off_a_contested_slot() {
    let mut l = live();
    let c = two();
    l.resting = Some(stale(5, MAX_RESTING_NS - SECOND));
    warm(&mut l, &c);
    assert!(l.rotate.is_none(), "it has not had its hour yet");
}

// ---------------------------------------------------------------- the view

fn view() -> EngineView {
    EngineView {
        apr_bar: 16_000_000,
        global_cap_usd: 500_000_000,
        pm_ask: Vec::new(),
        pm_bid: Vec::new(),
        k_bid: Vec::new(),
        k_ask: Vec::new(),
        k_ladder: Vec::new(),
        depth: Vec::new(),
        suppressed_at: Vec::new(),
    }
}

#[test]
fn a_silent_or_stale_engine_view_refuses_rather_than_defaulting() {
    let mut b = Board::new();
    let e = engine_view(&b, NOW).err().expect("never published").text();
    assert!(e.contains("never published"), "{e}");
    assert!(e.contains("will not be invented"), "{e}");
    publish_view(&mut b, view(), NOW);
    assert_eq!(engine_view(&b, NOW).expect("fresh").apr_bar, 16_000_000);
    let late = NOW + 181 * SECOND;
    assert_eq!(
        engine_view(&b, late).err(),
        Some(ViewRefusal::Stale { age_ns: 181 * SECOND }),
        "three minutes without a word is too old"
    );
}

#[test]
fn a_request_to_yield_stands_until_the_next_one() {
    let side = |m: &str, s: &str| (m.to_string(), s.to_string());
    let mut b = Board::new();
    assert!(suppress_requests(&b).is_empty(), "nothing before the first one");
    request_suppress(&mut b, vec![side("K-a", "ask"), side("p-a", "bid")]);
    assert_eq!(suppress_requests(&b), [side("K-a", "ask"), side("p-a", "bid")]);
    request_suppress(&mut b, vec![side("K-b", "ask")]);
    assert_eq!(suppress_requests(&b), [side("K-b", "ask")], "in place of the last one");
    assert!(engine_view(&b, NOW).is_err(), "and it is no view");
}

// ----------------------------------------------------------- the stand-off

#[test]
fn an_exit_that_halted_releases_the_stand_off_so_the_backstop_can_run() {
    let mut s = StandOff::new();
    arm_standoff(&mut s);
    let mut l = Live::new(false, "/dev/null".to_string());
    l.resting = Some(stale(5, 0));
    publish_working(&mut s, l.working_set(None), NOW);
    let why = working_check(&s, "K-a", NOW).expect_err("an ask of ours is resting there");
    assert!(why.text("K-a").contains("taker_at_cross"), "it says what would happen: {why:?}");
    l.resting = None;
    let c = vec![cand(10, 1.0)];
    assert!(pick(&mut l, &c, T0, 1).is_err(), "the latch holds the pass off");
    publish_working(&mut s, l.working_set(None), NOW);
    assert!(working_check(&s, "K-a", NOW).is_ok(), "the backstop must be free to complete it");
}

#[test]
fn a_silent_maker_exit_loop_refuses_rather_than_assuming_the_ask_is_gone() {
    let mut s = StandOff::new();
    assert!(working_check(&s, "K-a", NOW).is_ok(), "nothing armed, nothing to collide with");
    arm_standoff(&mut s);
    let why = working_check(&s, "K-a", NOW).expect_err("armed, and it has never spoken");
    assert_eq!(why, StandOffRefusal::NotPublished);
    assert!(why.text("K-a").contains("has not yet published"), "{}", why.text("K-a"));
    publish_working(&mut s, Vec::new(), NOW);
    let late = NOW + WORKING_MAX_AGE_NS + SECOND;
    assert!(matches!(working_check(&s, "K-a", late), Err(StandOffRefusal::Stale { .. })));
}

// --------------------------------------------------------------- the cycle

#[test]
fn a_cycle_without_a_view_only_pulls() {
    let mut l = live();
    assert_eq!(opening(&l, false), Opening::Stop);
    l.resting = Some(stale(5, 0));
    assert_eq!(opening(&l, false), Opening::PullAndStop);
    assert_eq!(opening(&l, true), Opening::Work { heal: false, manage: true });
    l.resting = None;
    l.pending = Some(PendingClose { order: order(5), filled: 5, since: NOW, attempts: 0 });
    assert_eq!(opening(&l, true), Opening::Work { heal: true, manage: false });
}

#[test]
fn what_rests_stays_yielded_while_another_market_is_worked() {
    let mut l = live();
    l.resting = Some(stale(5, 0));
    let side = |m: &str, s: &str| (m.to_string(), s.to_string());
    assert_eq!(resting_keys(&l), vec![side("K-a", "ask")]);
    let keys = wanted(&l, "K-b", "p-b");
    assert!(keys.contains(&side("K-a", "ask")), "{keys:?}");
    assert!(keys.contains(&side("K-b", "ask")) && keys.contains(&side("p-b", "bid")), "{keys:?}");
    l.take_ok = true;
    let keys = wanted(&l, "K-b", "p-b");
    assert!(keys.contains(&side("K-b", "bid")) && keys.contains(&side("p-b", "ask")), "{keys:?}");
}

#[test]
fn a_hand_over_is_taken_up_once() {
    let mut l = live();
    let c = two();
    l.resting = Some(stale(5, MAX_RESTING_NS + SECOND));
    warm(&mut l, &c);
    let r = hand_over(&mut l).expect("the slot has been held too long");
    assert_eq!(r.market, "K-a");
    assert!(hand_over(&mut l).is_none());
}
