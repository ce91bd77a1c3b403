//! What an order actually got, and what the ledger is told of it.
use arb_trader::decide::MAX_CLIP;
use arb_trader::fills::{
    fill_price, filled_price_or_limit, plausible_pair, plausible_pair_direction, OrderFill,
};
use arb_trader::gauges::{closed, outstanding, unresolved, Gauges};
use arb_trader::order::{Cross, Order};
use arb_trader::record::{alarm_unresolved, book, close_record, describe, Booking};
use arb_trader::venue::{sells_yes, Direction, Role, Shape, Venue};

const SOURCE: &str = "arb-trader";

fn order(qty: i64) -> Order {
    Order {
        rel_id: "r1".to_string(),
        shape: Shape::RestKalshi,
        direction: Direction::Standard,
        market: "K-a".to_string(),
        pm_market: "p-a".to_string(),
        qty,
        limit: "0.2500".to_string(),
        closes_ts: 1.0f64.to_bits(),
        k_basis: "0.190000".to_string(),
        pm_basis: "0.780000".to_string(),
        pm_ask_at_decision: "0.20".to_string(),
        lock_ct: "0.0100".to_string(),
        cross: None,
        runner_up_ct: None,
    }
}

fn notional(qty: &str, taker: &str, complement: bool) -> OrderFill {
    OrderFill::Notional {
        qty: qty.to_string(),
        taker_cost_usd: taker.to_string(),
        maker_cost_usd: "0".to_string(),
        complement,
    }
}

fn average(px: &str) -> OrderFill {
    OrderFill::Average { avg_px: px.to_string() }
}

#[test]
fn the_booked_roles_follow_the_shape_and_not_the_venue() {
    let mut o = order(5);
    o.shape = Shape::RestPmUs;
    let rec = close_record(&o, "0.20", "0.17", 5, 1.0f64.to_bits(), SOURCE);
    assert_eq!(rec.legs[0].venue.as_str(), "kalshi");
    assert_eq!(rec.legs[0].role.as_str(), "taker", "rest-pmus crosses Kalshi: {rec:?}");
    assert_eq!(rec.legs[1].venue.as_str(), "polymarket_us");
    assert_eq!((rec.legs[0].side, rec.legs[0].action), ("yes", "sell"));
    assert_eq!((rec.legs[1].side, rec.legs[1].action), ("no", "sell"));
    assert_eq!(rec.legs[1].role.as_str(), "maker", "rest-pmus rests on PM-US: {rec:?}");
    assert_eq!(rec.maker_exit_shape, "rest-pmus");

    let a = close_record(&order(5), "0.20", "0.17", 5, 1.0f64.to_bits(), SOURCE);
    assert_eq!(a.legs[0].role.as_str(), "maker", "and the first shape is unchanged");
    assert_eq!(a.legs[1].role.as_str(), "taker");
}

#[test]
fn a_rest_pmus_record_puts_each_price_on_the_venue_that_paid_it() {
    let mut o = order(5);
    o.shape = Shape::RestPmUs;
    let rec = close_record(&o, "0.20", "0.17", 5, 1.0f64.to_bits(), SOURCE);
    assert_eq!(rec.legs[0].venue, Venue::Kalshi);
    assert_eq!(rec.legs[0].yes_price, "0.17", "the Kalshi IOC's price: {rec:?}");
    assert_eq!(rec.legs[1].venue, Venue::PolymarketUs);
    assert_eq!(rec.legs[1].yes_price, "0.20", "the PM-US rest's price: {rec:?}");

    let a = close_record(&order(5), "0.20", "0.17", 5, 1.0f64.to_bits(), SOURCE);
    assert_eq!(a.legs[0].yes_price, "0.20", "kalshi rested at 0.20: {a:?}");
    assert_eq!(a.legs[1].yes_price, "0.17", "pmus closed at 0.17: {a:?}");
}

#[test]
fn a_crossed_record_books_both_takers_and_the_price_it_crossed_at() {
    let mut o = order(5);
    o.shape = Shape::RestPmUs;
    o.cross = Some(Cross { limit: "0.2200".to_string(), lock_ct: "0.025704".to_string() });
    assert_eq!(o.rest_limit(), "0.2200", "the IOC's price, not the rest's {}", o.limit);
    let rec = close_record(&o, o.rest_limit(), "0.17", 5, 1.0f64.to_bits(), SOURCE);
    assert_eq!(rec.legs[0].role, Role::Taker);
    assert_eq!(rec.legs[1].role, Role::Taker, "neither leg rested: {rec:?}");
    assert_eq!(rec.legs[1].yes_price, "0.2200", "the price the IOC paid: {rec:?}");
    assert_eq!(rec.maker_exit_lock_ct, "0.025704", "the lock actually taken: {rec:?}");
    assert!(rec.note.contains("CROSSED"), "the note says what happened: {rec:?}");
}

#[test]
fn an_uncrossed_rest_limit_is_the_orders_own() {
    let o = order(5);
    assert!(o.cross.is_none());
    assert_eq!(o.rest_limit(), o.limit);
}

#[test]
fn a_sell_is_read_as_the_complement_of_its_notional() {
    let f = notional("5.00", "3.920800", true);
    assert_eq!(fill_price(&f, "0.1200", true).as_deref(), Some("0.2158"));
}

#[test]
fn a_buy_is_read_as_the_notional_itself() {
    let f = notional("5.00", "1.800000", false);
    assert_eq!(fill_price(&f, "0.3600", false).as_deref(), Some("0.3600"));
}

#[test]
fn the_recon_completions_buy_direction_is_not_the_venues() {
    let f = notional("5.00", "0.450000", false);
    assert_eq!(
        fill_price(&f, "0.1000", false).as_deref(),
        Some("0.0900"),
        "a BUY that filled a cent better than its limit"
    );
    assert!(sells_yes(Venue::Kalshi), "the exit's Kalshi leg really does sell");
    assert_eq!(fill_price(&f, "0.1000", true), None, "that direction would refuse it");
}

#[test]
fn a_price_worse_than_its_own_limit_is_refused() {
    let dear = notional("5.00", "3.920800", false);
    assert_eq!(fill_price(&dear, "0.3600", false), None, "0.7842 on a 0.36 limit");
    assert_eq!(fill_price(&average("0.1000"), "0.2000", true), None, "sold under a 0.20 limit");
}

#[test]
fn the_limit_guard_alone_cannot_catch_an_inverted_sell() {
    let inverted = notional("5.00", "3.920800", false);
    assert_eq!(fill_price(&inverted, "0.1200", true).as_deref(), Some("0.7842"));
    assert!(!plausible_pair("0.7842", "0.2000"));
    assert!(plausible_pair("0.2158", "0.2000"), "the correct read is fine");
}

#[test]
fn the_pair_bound_admits_real_closes_and_rejects_nonsense() {
    for (k, pm) in [("0.2158", "0.2000"), ("0.3600", "0.3300"), ("0.0300", "0.0600")] {
        assert!(plausible_pair(k, pm), "a real close: {k}/{pm}");
    }
    assert!(!plausible_pair("0.9000", "0.0100"), "1.89/ct is not a flatten");
    assert!(!plausible_pair("0.0100", "0.9000"), "0.11/ct is not one either");
}

#[test]
fn a_pmus_average_is_taken_as_given_and_still_guarded() {
    assert_eq!(fill_price(&average("0.1300"), "0.1500", false).as_deref(), Some("0.1300"));
    assert_eq!(fill_price(&average("0.1900"), "0.1500", false), None);
}

#[test]
fn a_price_outside_the_unit_interval_is_not_a_fill() {
    for px in ["0", "1", "1.5", "-0.2"] {
        assert_eq!(fill_price(&average(px), "0.9999", false), None, "px {px}");
    }
    assert_eq!(fill_price(&notional("0", "1.0", false), "0.5", false), None);
}

#[test]
fn the_guards_direction_follows_the_venue_not_the_shape() {
    assert!(sells_yes(Venue::Kalshi));
    assert!(!sells_yes(Venue::PolymarketUs));
    for shape in [Shape::RestKalshi, Shape::RestPmUs] {
        assert_ne!(shape.rest_venue(), shape.close_venue(), "{shape:?} closes the OTHER leg");
        assert!(
            sells_yes(shape.rest_venue()) != sells_yes(shape.close_venue()),
            "one leg sells and the other buys, whichever rested: {shape:?}"
        );
    }
}

#[test]
fn a_fill_nobody_could_read_falls_back_to_the_limit() {
    assert_eq!(filled_price_or_limit(&None, "0.1200", true), "0.1200");
    assert_eq!(filled_price_or_limit(&Some(average("0.0")), "0.1200", true), "0.1200");
    let f = Some(notional("5.00", "3.920800", true));
    assert_eq!(filled_price_or_limit(&f, "0.1200", true), "0.2158");
}

#[test]
fn the_pair_bound_turns_over_with_the_direction() {
    assert!(plausible_pair_direction(Direction::Inverse, "0.2000", "0.2158"));
    assert!(!plausible_pair_direction(Direction::Inverse, "0.0100", "0.9000"));
    assert!(!plausible_pair("not a price", "0.20"));
}

#[test]
fn the_naked_alarm_names_the_side_the_shape_actually_left_open() {
    let mut g = Gauges::new();
    let a = alarm_unresolved(&mut g, &order(5), 5, "the close was refused", "1");
    assert!(a.contains("SOLD on Kalshi"), "{a}");
    assert!(a.contains("short 5 PM-US YES"), "{a}");
    assert!(a.contains("BUYING KALSHI BACK"), "{a}");

    let mut o = order(5);
    o.shape = Shape::RestPmUs;
    let b = alarm_unresolved(&mut g, &o, 5, "the close was refused", "1");
    assert!(b.contains("BOUGHT BACK on PM-US"), "{b}");
    assert!(b.contains("long 5 Kalshi YES"), "{b}");
    assert!(b.contains("SELLING PM-US SHORT"), "{b}");
    assert!(!b.contains("short 5 PM-US YES"), "the opposite claim must not survive: {b}");
    assert_eq!(unresolved(&g), 2);
    assert_eq!(outstanding(&g), 2);
}

#[test]
fn the_close_books_against_the_one_lot_it_was_sized_to() {
    let mut o = order(5);
    o.limit = "0.2100".to_string();
    let rec = close_record(&o, "0.2100", "0.2000", 3, 99.0f64.to_bits(), SOURCE);
    assert_eq!(rec.status, "unwound");
    assert_eq!(f64::from_bits(rec.closes_ts), 1.0);
    assert_eq!(f64::from_bits(rec.ts), 99.0);
    assert_eq!(rec.qty, 3);
    assert_eq!(rec.source, SOURCE);
    assert_eq!(rec.strategy, "maker-exit");
    assert!(rec.fees_pending, "the venue fees are not read here");
    assert_eq!(rec.relationship_id, "r1");
    assert_eq!(rec.legs.len(), 2);
    assert_eq!(rec.legs[0].qty, 3);
    assert_eq!(rec.legs[1].qty, 3);
}

#[test]
fn a_record_that_could_not_be_written_leaves_the_exit_unresolved() {
    let mut g = Gauges::new();
    let o = order(5);
    let path = "ledger.jsonl";
    let done = book(&mut g, &Booking::Booked, path, &o, "0.2500", "0.2000", 5, "1");
    assert_eq!(
        done,
        "[maker-exit] CLOSED 5x K-a at 0.2500 / pm 0.2000 — the lot opened at ts 1 is unwound by 5"
    );
    let again = book(&mut g, &Booking::AlreadyBooked, path, &o, "0.2500", "0.2000", 5, "1");
    assert!(again.contains("ALREADY in ledger.jsonl"), "{again}");
    let contested = Booking::Contested { others: "[2.0]".to_string() };
    let line = book(&mut g, &contested, path, &o, "0.2500", "0.2000", 5, "1");
    assert!(line.contains("CONTESTED r1"), "{line}");
    assert_eq!((closed(&g), unresolved(&g)), (3, 0), "both baskets are in the ledger");
    let lost = Booking::Failed { why: "disk full".to_string() };
    let line = book(&mut g, &lost, path, &o, "0.2500", "0.2000", 5, "1");
    assert!(line.contains("disk full"), "{line}");
    assert!(line.contains("maker_exit_unresolved is now 1."), "{line}");
    assert_eq!((closed(&g), unresolved(&g)), (3, 1));
}

#[test]
fn a_shadow_exit_says_that_it_places_nothing() {
    let s = describe(&order(MAX_CLIP), true, 120_000_000_000, "1");
    let a = describe(&order(MAX_CLIP), false, 120_000_000_000, "1");
    assert!(s.contains("0.2500") && a.contains("0.2500"), "{s} / {a}");
    assert_ne!(s, a);
    assert!(s.contains("120"), "how long it was held: {s}");
}

#[test]
fn a_fill_is_read_at_full_length_and_rounded_once() {
    assert_eq!(fill_price(&average("0.1666667"), "0.9000", false).as_deref(), Some("0.1667"));
    assert_eq!(
        fill_price(&average("0.166666666666666666666666667"), "0.9000", false).as_deref(),
        Some("0.1667")
    );
    assert_eq!(fill_price(&average("1.25e-1"), "0.9000", false).as_deref(), Some("0.1250"));
    assert_eq!(fill_price(&average("0.12345"), "0.9", false).as_deref(), Some("0.1234"));
    assert_eq!(fill_price(&average("0.12355"), "0.9", false).as_deref(), Some("0.1236"));
    let thirds = notional("3", "1.0000000001", false);
    assert_eq!(fill_price(&thirds, "0.9000", false).as_deref(), Some("0.3333"));
    assert_eq!(fill_price(&notional("3", "1", true), "0.1", true).as_deref(), Some("0.6667"));
    let huge = notional("3000000000000", "1000000000000.0000007", false);
    assert_eq!(fill_price(&huge, "0.9000", false).as_deref(), Some("0.3333"));
}

#[test]
fn a_fill_past_its_limit_by_any_digit_is_refused() {
    let a_hair = average("0.15000000001");
    assert_eq!(fill_price(&a_hair, "0.1500", false), None);
    assert_eq!(fill_price(&a_hair, "0.15000000001", false).as_deref(), Some("0.1500"));
    assert_eq!(fill_price(&a_hair, "0.15000000002", true), None);
    assert_eq!(fill_price(&a_hair, "no limit", true), None);
}

#[test]
fn the_pair_bound_is_open_at_both_ends() {
    assert!(!plausible_pair("0.5000", "1.0000"), "half a dollar is out");
    assert!(plausible_pair("0.5000000001", "1.0000"));
    assert!(!plausible_pair("0.9000", "0.4000"), "a dollar and a half is out");
    assert!(plausible_pair("0.8999999999", "0.4000"));
}
