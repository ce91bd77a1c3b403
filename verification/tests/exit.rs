//! An exit from the order that rests to the record that books it.
use arb_trader::board::EngineView;
use arb_trader::closing::{
    close_shortfall, find_touch, price_close, still_pays, CloseRefusal, PayRefusal,
    HEAL_PROFITABLE_CYCLES,
};
use arb_trader::exit::{
    cancel_settle, clamp_fill, close_prices, close_settle, cross_reply, cross_settle, heal,
    place_request, place_settle, pull, resolve_vanished, settled_fill, Crossed, HealPlan, NetRead,
    PlaceReply, Poll, Vanished, VANISHED_MIN_AGE_NS,
};
use arb_trader::fees::FeeSchedule;
use arb_trader::fills::OrderFill;
use arb_trader::gauges::{placed, refused, unresolved, Gauges};
use arb_trader::ids::{client_order_id, IdClock};
use arb_trader::ledger::{expected_at_close, expected_at_rest, open_on, LotLeg, OpenLot};
use arb_trader::live::{Live, PendingClose, Resting};
use arb_trader::order::{Cross, Order};
use arb_trader::record::alarm_unresolved;
use arb_trader::venue::{Direction, Shape, Side, Tif, Venue};

const SECOND: u64 = 1_000_000_000;
const NOW: u64 = 1_000_000 * SECOND;
/// A contract, in the units of a net position.
const CT: i64 = 1_000_000;

fn pair(a: &str, b: &str) -> (String, String) {
    (a.to_string(), b.to_string())
}

fn view_with(pm_ask: &str, pm_bid: &str, k_bid: &str) -> EngineView {
    EngineView {
        apr_bar: 16_000_000,
        global_cap_usd: 500_000_000,
        pm_ask: vec![pair("p-a", pm_ask)],
        pm_bid: vec![pair("p-a", pm_bid)],
        k_bid: vec![pair("K-a", k_bid)],
        k_ask: Vec::new(),
        k_ladder: Vec::new(),
        depth: Vec::new(),
        suppressed_at: Vec::new(),
    }
}

fn view(pm_ask: &str) -> EngineView {
    view_with(pm_ask, "0.10", "0.2000")
}

fn order(qty: i64) -> Order {
    Order {
        rel_id: "r1".to_string(),
        shape: Shape::RestKalshi,
        direction: Direction::Standard,
        market: "K-a".to_string(),
        pm_market: "p-a".to_string(),
        qty,
        limit: "0.2500".to_string(),
        closes_ts: 1.0f64.to_bits(),
        k_basis: "0.190000".to_string(),
        pm_basis: "0.780000".to_string(),
        pm_ask_at_decision: "0.20".to_string(),
        lock_ct: "0.0100".to_string(),
        cross: None,
        runner_up_ct: None,
    }
}

fn pmus_order(qty: i64) -> Order {
    let mut o = order(qty);
    o.shape = Shape::RestPmUs;
    o
}

fn resting(o: Order, age_ns: u64) -> Resting {
    Resting {
        order: o,
        venue_order_id: "v1".to_string(),
        client_order_id: "x1".to_string(),
        since: NOW - age_ns,
    }
}

fn live_with(o: Order, age_ns: u64) -> Live {
    let mut l = Live::new(false, "trades.jsonl".to_string());
    l.resting = Some(resting(o, age_ns));
    l
}

fn pending(o: Order, attempts: u32) -> PendingClose {
    let filled = o.qty;
    PendingClose { order: o, filled, since: NOW, attempts }
}

fn polled(got: i64) -> Poll {
    let mut p = Poll::new();
    p.note(Some(got));
    p
}

// ------------------------------------------------------- the vanished order

#[test]
fn an_unreadable_ledger_holds_a_vanished_order() {
    let mut l = live_with(order(5), VANISHED_MIN_AGE_NS + SECOND);
    let r = l.resting.clone().expect("it rests");
    let v = resolve_vanished(&mut l, &r, None, NetRead::Row { net: 5 * CT });
    assert_eq!(v, Vanished::NoLedger);
    assert!(l.resting.is_some());
}

// ----------------------------------------------------------------- the heal

fn lot_on(qty: i64, legs: &[(&str, &str)]) -> OpenLot {
    let leg = |l: &(&str, &str)| LotLeg { venue: l.0.to_string(), market_id: l.1.to_string() };
    OpenLot { qty, legs: legs.iter().map(leg).collect() }
}

/// One open lot on both markets.
fn lots(qty: i64) -> Vec<OpenLot> {
    vec![lot_on(qty, &[("kalshi", "K-a"), ("polymarket_us", "p-a")])]
}

#[test]
fn only_lots_with_a_leg_on_the_market_count_there() {
    let mut all = lots(5);
    all.push(lot_on(7, &[("kalshi", "K-b"), ("polymarket_us", "p-a")]));
    all.push(lot_on(11, &[("kalshi", "p-a"), ("kalshi", "K-a")]));
    all.push(lot_on(13, &[]));
    assert_eq!(open_on(&all, Venue::PolymarketUs, "p-a"), 12, "a market of the other venue is not it");
    assert_eq!(open_on(&all, Venue::Kalshi, "K-a"), 16);
    assert_eq!(open_on(&all, Venue::Kalshi, "p-a"), 11);
    assert_eq!(open_on(&all, Venue::Kalshi, "K-z"), 0);
    assert_eq!(expected_at_rest(&all, &order(5)), 16, "it rests on Kalshi");
    assert_eq!(expected_at_close(&all, &order(5)), 12, "and closes on PM-US");
    assert_eq!(expected_at_rest(&all, &pmus_order(5)), 12);
}

#[test]
fn the_shortfall_reads_the_open_leg_with_that_venues_sign() {
    let a = pending(order(5), 0);
    assert_eq!(close_shortfall(&lots(5), &a, -5 * CT), 5, "5 short at the venue, 5 owed");
    assert_eq!(close_shortfall(&lots(5), &a, 0), 0, "flat at the venue: the close landed");
    assert_eq!(close_shortfall(&lots(5), &a, -2 * CT), 2, "partly bought back");
    let b = pending(pmus_order(5), 0);
    assert_eq!(close_shortfall(&lots(5), &b, 5 * CT), 5, "5 long at the venue, 5 still to sell");
    assert_eq!(close_shortfall(&lots(5), &b, 0), 0, "flat: the sell landed");
    assert_eq!(close_shortfall(&lots(5), &b, 2 * CT), 2, "partly sold");
    assert_eq!(close_shortfall(&lots(5), &b, -5 * CT), 0, "a short Kalshi net is not ours to sell");
}

#[test]
fn a_retry_is_sized_to_the_venue_shortfall_and_never_to_the_fill() {
    let p = pending(order(5), 1);
    assert_eq!(close_shortfall(&lots(5), &p, -5 * CT), 5, "nothing closed yet");
    assert_eq!(close_shortfall(&lots(5), &p, -2 * CT), 2, "only the remainder is owed");
    assert_eq!(close_shortfall(&lots(5), &p, 0), 0, "the close completed after all");
    assert_eq!(close_shortfall(&lots(5), &p, 3 * CT), 0, "never buy into a long");
}

fn latched(attempts: u32) -> (Live, Gauges) {
    let mut l = Live::new(false, "trades.jsonl".to_string());
    l.pending = Some(pending(order(5), attempts));
    let mut g = Gauges::new();
    g.note_unresolved();
    (l, g)
}

#[test]
fn a_book_gone_dark_heals_nothing() {
    let (mut l, mut g) = latched(HEAL_PROFITABLE_CYCLES);
    let mut dark = view("0.20");
    dark.pm_ask = Vec::new();
    let step = heal(&mut l, &mut g, Some(-5 * CT), Some(5), &dark, "x2");
    assert!(matches!(step.plan, HealPlan::Dark { owed: 5, .. }), "{:?}", step.plan);
    assert!(step.req.is_none());
}

// ----------------------------------------------------------- the fill path

#[test]
fn a_filled_exit_whose_close_failed_alarms_on_its_own_gauge() {
    let mut g = Gauges::new();
    let mut o = order(5);
    o.limit = "0.2100".to_string();
    let line = alarm_unresolved(&mut g, &o, 3, "PM-US returned 503", "1");
    assert_eq!(unresolved(&g), 1);
    assert_eq!(refused(&g), 0, "a naked leg is not a refusal");
    assert!(line.contains("NAKED AFTER EXIT"), "{line}");
    assert!(line.contains("BUYING KALSHI BACK"), "{line}");
    assert!(!line.contains("RECONCILE BY HAND"), "{line}");
    assert!(line.contains("`heal` HAS IT"), "{line}");
    assert!(line.contains("NO HAND NEEDED"), "{line}");
}

#[test]
fn a_cancel_that_did_not_land_keeps_the_market_stood_off() {
    let mut l = live_with(order(5), 0);
    let r = pull(&mut l).expect("it rests");
    cancel_settle(&mut l, &r.order, false);
    assert!(l.working_set(None).contains(&"K-a".to_string()));
}

#[test]
fn a_close_that_filled_partly_books_its_part_and_parks_the_rest() {
    let mut g = Gauges::new();
    let mut l = live_with(order(5), 0);
    let r = pull(&mut l).expect("it rests");
    let done = close_settle(&mut l, &mut g, &r, 5, &polled(3), "", "1");
    assert_eq!(done.booked, 3);
    assert!(done.alarm.is_some());
    assert_eq!(l.pending.as_ref().map(|p| p.filled), Some(2));
    let mut l = live_with(order(5), 0);
    let r = pull(&mut l).expect("it rests");
    let mut blind = Poll::new();
    assert!(!blind.note(None), "one unreadable answer does not settle a poll");
    let done = close_settle(&mut l, &mut g, &r, 5, &blind, "unreadable", "1");
    assert_eq!(done.booked, 0);
    assert_eq!(l.pending.as_ref().map(|p| p.filled), Some(5));
}

#[test]
fn a_fill_above_the_order_is_cut_to_the_order_and_alarmed() {
    let mut g = Gauges::new();
    let (qty, alarm) = clamp_fill(&mut g, &order(5), 7, "1");
    assert_eq!(qty, 5);
    assert!(alarm.is_some());
    assert_eq!(unresolved(&g), 1);
}

#[test]
fn a_count_that_could_not_be_read_again_stands() {
    assert_eq!(settled_fill(2, None), 2);
    assert_eq!(settled_fill(2, Some(3)), 3);
}

// ------------------------------------------------------- what still pays

#[test]
fn the_still_pays_bound_inverts_with_the_shape() {
    let fees = FeeSchedule::new();
    let o = pmus_order(5);
    let v = view_with("0.30", "0.24", "0.60");
    assert!(still_pays(&fees, &o, &v).is_ok(), "the ceiling is above our bid");
    let v = view_with("0.30", "0.24", "0.20");
    let why = still_pays(&fees, &o, &v).expect_err("the ceiling has fallen");
    let touch = find_touch(&o, &v).expect("a bid").as_str();
    let why = why.text(&o, touch);
    assert!(why.contains("ceiling"), "and it says which bound moved: {why}");
    assert!(why.contains("Kalshi bid"), "{why}");
}

#[test]
fn a_rest_pmus_close_prices_a_kalshi_sell_against_the_kalshi_bid() {
    let fees = FeeSchedule::new();
    let o = pmus_order(5);
    let v = view_with("0.30", "0.24", "0.60");
    let px = price_close(&fees, &o, 5, &v).expect("priced");
    let px_f: f64 = px.parse().expect("parses");
    assert!(px_f <= 0.60, "at or under the bid, or the IOC cannot fill: {px}");
    assert!(px_f > 0.0, "and a real price: {px}");
    let dark = view_with("0.30", "0.24", "0.02");
    let why = price_close(&fees, &o, 5, &dark).expect_err("does not pay").text(&o, "0.02");
    assert!(why.contains("Kalshi bid"), "{why}");
}

#[test]
fn a_close_names_what_it_could_not_read() {
    let fees = FeeSchedule::new();
    let mut o = order(5);
    o.k_basis = "?".to_string();
    let e = price_close(&fees, &o, 5, &view("0.20")).expect_err("no basis");
    assert_eq!(e, CloseRefusal::KalshiBasisNoPrice);
    let mut o = order(5);
    o.pm_basis = "?".to_string();
    let e = price_close(&fees, &o, 5, &view("0.20")).expect_err("no basis");
    assert_eq!(e, CloseRefusal::PmBasisNoPrice);
    let mut o = order(5);
    o.limit = "?".to_string();
    let e = price_close(&fees, &o, 5, &view("0.20")).expect_err("no fill price");
    assert_eq!(e, CloseRefusal::FillNoPrice);
    let mut dark = view("0.20");
    dark.pm_ask = Vec::new();
    assert_eq!(price_close(&fees, &order(5), 5, &dark), Err(CloseRefusal::NoTouch));
    assert_eq!(
        price_close(&fees, &order(5), 5, &view("?")),
        Err(CloseRefusal::TouchNoPrice)
    );
    assert!(matches!(
        price_close(&fees, &order(5), 5, &view("0.90")),
        Err(CloseRefusal::Moved { .. })
    ));
    assert_eq!(still_pays(&fees, &order(5), &dark), Err(PayRefusal::Dark));
    assert_eq!(still_pays(&fees, &order(5), &view("?")), Err(PayRefusal::NoPrice));
}

#[test]
fn a_close_may_pay_up_to_the_lock_and_no_further() {
    let fees = FeeSchedule::new();
    let px = price_close(&fees, &order(5), 5, &view("0.20")).expect("priced");
    let limit: f64 = px.parse().expect("parses");
    // Sold at 0.25 with a cent of fees per five, the close may cost just over
    // a quarter before the half cent of lock is gone.
    assert!((0.20..0.27).contains(&limit), "{px}");
}

#[test]
fn a_closing_quote_of_any_length_is_held_against_the_limit() {
    let fees = FeeSchedule::new();
    let limit = price_close(&fees, &order(5), 5, &view("0.20")).expect("priced");
    let at = |touch: &str| price_close(&fees, &order(5), 5, &view_with(touch, "0.19", "0.20"));
    assert_eq!(at(&limit), Ok(limit.clone()));
    assert_eq!(at(&format!("{limit}000000")), Ok(limit.clone()));
    assert!(matches!(at(&format!("{limit}0000000001")), Err(CloseRefusal::Moved { .. })));
    assert_eq!(at("0.19999999999999"), Ok(limit.clone()));
    assert_eq!(at("2e-1"), Ok(limit));
}

#[test]
fn an_exit_that_its_closing_ladder_no_longer_backs_does_not_pay() {
    let fees = FeeSchedule::new();
    let mut v = view("0.20");
    v.depth = vec![("polymarket_us:p-a:ask".to_string(), 5)];
    assert_eq!(still_pays(&fees, &order(5), &v), Ok(()));
    v.depth = vec![("polymarket_us:p-a:ask".to_string(), 4)];
    let why = still_pays(&fees, &order(5), &v).expect_err("too thin");
    assert_eq!(why, PayRefusal::Thin { depth: 4 });
    assert_eq!(
        why.text(&order(5), "0.20"),
        "the close ladder on p-a no longer backs the exit: its depth fell to 4, under the 5 \
         contract(s) resting"
    );
}

// ------------------------------------------------------------- the sending

#[test]
fn an_accepted_order_rests_and_a_halted_market_is_parked() {
    let mut g = Gauges::new();
    let mut l = Live::new(false, "/dev/null".to_string());
    let ok = PlaceReply::Accepted { id: "v9".to_string() };
    place_settle(&mut l, &mut g, order(5), ok, "x1", NOW, 600 * SECOND);
    assert_eq!(placed(&g), 1);
    let r = l.resting.as_ref().expect("it rests");
    assert_eq!((r.venue_order_id.as_str(), r.client_order_id.as_str()), ("v9", "x1"));
    let mut l = Live::new(false, "/dev/null".to_string());
    place_settle(&mut l, &mut g, order(5), PlaceReply::Halted, "x1", NOW, 600 * SECOND);
    assert!(l.is_parked("K-a", NOW));
    assert!(l.resting.is_none());
    place_settle(&mut l, &mut g, order(5), PlaceReply::Refused, "x1", NOW, 600 * SECOND);
    assert!(l.resting.is_none() && l.unaddressable.is_empty());
}

#[test]
fn a_resting_exit_is_post_only_and_a_cross_is_not() {
    let req = place_request(&order(5), "x1");
    assert_eq!((req.market.as_str(), req.price.as_str(), req.qty), ("K-a", "0.2500", 5));
    assert_eq!((req.side, req.tif, req.post_only), (Side::Ask, Tif::Gtc, true));
    let req = place_request(&pmus_order(5), "x1");
    assert_eq!((req.market.as_str(), req.side), ("p-a", Side::Bid));
    let mut o = order(5);
    o.cross = Some(Cross { limit: "0.1500".to_string(), lock_ct: "0.03".to_string() });
    let req = place_request(&o, "x1");
    assert_eq!((req.price.as_str(), req.tif, req.post_only), ("0.1500", Tif::Ioc, false));
}

#[test]
fn a_cross_is_settled_by_what_the_venue_says_it_filled() {
    let mut g = Gauges::new();
    assert_eq!(cross_settle(&mut g, &polled(3)), Crossed::Filled { qty: 3 });
    assert_eq!(cross_settle(&mut g, &polled(0)), Crossed::Unfilled);
    let mut blind = Poll::new();
    blind.note(None);
    assert_eq!(cross_settle(&mut g, &blind), Crossed::Unreadable);
    let id = cross_reply(&mut g, PlaceReply::Accepted { id: "v1".to_string() });
    assert_eq!(id.as_deref(), Some("v1"));
    assert_eq!(cross_reply(&mut g, PlaceReply::Refused), None);
}

#[test]
fn an_implausible_pair_is_booked_at_its_limits() {
    let notional = |cost: &str, complement: bool| {
        Some(OrderFill::Notional {
            qty: "5".to_string(),
            taker_cost_usd: cost.to_string(),
            maker_cost_usd: "0".to_string(),
            complement,
        })
    };
    let good = close_prices(&order(5), &notional("3.70", true), &notional("1.00", false), "0.2100");
    assert!(good.plausible);
    assert_eq!((good.rest.as_str(), good.close.as_str()), ("0.2600", "0.2000"));
    let bad = close_prices(&order(5), &notional("4.75", false), &notional("0.05", false), "0.2100");
    assert!(!bad.plausible);
    assert_eq!((bad.rest.as_str(), bad.close.as_str()), ("0.2500", "0.2100"));
}

#[test]
fn the_exit_order_id_is_recognised_by_the_sweep() {
    let mut clock = IdClock::new();
    let id = client_order_id(&mut clock, 1_784_646_659_716_000);
    assert!(id.starts_with('x'), "{id}");
    assert!(id[1..].bytes().all(|b| b.is_ascii_digit()), "an x and a number: {id}");
}

#[test]
fn order_ids_never_repeat_even_when_the_clock_stands_still() {
    let mut clock = IdClock::new();
    let a = client_order_id(&mut clock, 100);
    let b = client_order_id(&mut clock, 100);
    let c = client_order_id(&mut clock, 50);
    assert_eq!((a.as_str(), b.as_str(), c.as_str()), ("x100", "x101", "x102"));
}
