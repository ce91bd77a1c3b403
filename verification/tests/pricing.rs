//! What an exit may ask, what its close may cost, and where it rests.
use arb_trader::decimal::Ratio;
use arb_trader::fees::FeeSchedule;
use arb_trader::ladder::{
    ceil_to_tick, kalshi_step, legal_ladder, penny_ladder, rung_step, step_of, tick_above, Rung,
};
use arb_trader::money::{px4, px6, plain_text, to_cent_floor, to_wire, Px, CENT, ONE};
use arb_trader::pricing::{
    at_least, close_limit, exit_limit, lock_per_ct, micro_of, quantize, rest_price, rest_price_bid,
    six_of, PriceRefusal, EXIT_FLOOR, MIN_LOCK,
};
use arb_trader::venue::{Role, Venue};

/// A dollar in the units of a fee.
const FINE_DOLLAR: i128 = 10_000_000_000_000_000;

fn x(s: &str) -> Ratio {
    Ratio::read(s).expect("a price")
}

fn px(s: &str) -> Px {
    six_of(&x(s))
}

fn floor_of(k: &str, p: &str, close: &str) -> Result<Px, PriceRefusal> {
    exit_limit(
        &FeeSchedule::new(),
        &penny_ladder(),
        &x(k),
        &x(p),
        &x(close),
        5,
        Role::Maker,
        Role::Taker,
        MIN_LOCK,
    )
}

/// What five contracts net, in the units of a fee, when the Kalshi leg is sold
/// at `limit` and the PM-US leg bought at `close`.
fn net(limit: Px, close: Px, k_basis: Px, pm_basis: Px) -> i128 {
    let fees = FeeSchedule::new();
    let k_fee = fees.fee(Venue::Kalshi, Role::Maker, limit, 5);
    let pm_fee = fees.fee(Venue::PolymarketUs, Role::Taker, close, 5);
    let gross = i128::from(limit + ONE - close - k_basis - pm_basis) * 5 * 10_000_000_000;
    gross - k_fee - pm_fee
}

#[test]
fn the_floor_rises_with_the_basis_and_falls_as_the_pm_close_gets_cheaper() {
    let base = floor_of("0.19", "0.78", "0.21").expect("solvable");
    let dearer = floor_of("0.25", "0.78", "0.21").expect("solvable");
    assert!(dearer > base, "dearer basis must ask more: {dearer} vs {base}");
    let cheaper_close = floor_of("0.19", "0.78", "0.15").expect("solvable");
    assert!(cheaper_close < base, "a cheaper close lowers the floor: {cheaper_close} vs {base}");
    let locked = net(base, px("0.21"), px("0.19"), px("0.78"));
    assert!(locked >= i128::from(MIN_LOCK) * 5 * 10_000_000_000, "the floor must lock: {locked}");
}

#[test]
fn a_lot_that_cannot_be_exited_above_a_dollar_is_refused() {
    let e = floor_of("0.30", "0.85", "0.95")
        .expect_err("a $1.15 lot whose PM leg is worth 5c cannot be recovered under $1")
        .text();
    assert!(e.contains("at or above $1"), "{e}");
    assert!(e.contains("cannot be done"), "{e}");
    let l = floor_of("0.05", "0.10", "0.01").expect("anything pays");
    assert_eq!(px6(l), "0.010000", "a floor of $0.00 is not a placeable ask");
}

#[test]
fn the_floor_is_the_lowest_tick_that_locks_min_lock_and_the_one_below_it_does_not() {
    let lock = i128::from(MIN_LOCK) * 5 * 10_000_000_000;
    let mut straddled = 0usize;
    for milli in 0..40 {
        let text = format!("0.{:04}", 1900 + milli);
        let k_basis = px(&text);
        let Ok(floor) = floor_of(&text, "0.78", "0.21") else {
            continue;
        };
        let at = net(floor, px("0.21"), k_basis, px("0.78"));
        assert!(at >= lock, "k_basis {text}: the floor {floor} nets only {at}");
        let below = floor - CENT;
        if below <= 0 {
            continue;
        }
        let under = net(below, px("0.21"), k_basis, px("0.78"));
        assert!(under < lock, "k_basis {text}: one tick below the floor still nets {under}");
        straddled += 1;
    }
    assert!(straddled >= 10, "the sweep must actually exercise the boundary: {straddled}");
}

#[test]
fn the_resting_leg_is_priced_at_the_maker_schedule_not_the_taker_one() {
    let fees = FeeSchedule::new();
    let limit = floor_of("0.19", "0.78", "0.21").expect("solvable");
    let maker = fees.fee(Venue::Kalshi, Role::Maker, limit, 5);
    let taker = fees.fee(Venue::Kalshi, Role::Taker, limit, 5);
    assert!(maker < taker, "the two schedules must differ: {maker} vs {taker}");
}

fn close(fill: &str, k: &str, p: &str) -> Result<Px, PriceRefusal> {
    close_limit(
        &FeeSchedule::new(),
        &x(fill),
        &x(k),
        &x(p),
        5,
        Role::Maker,
        Role::Taker,
        MIN_LOCK,
    )
}

#[test]
fn the_close_is_repriced_against_what_the_kalshi_leg_actually_returned() {
    let p = close("0.25", "0.19", "0.78").expect("a 0.25 fill closes");
    let p2 = close("0.30", "0.19", "0.78").expect("still closes");
    assert!(p2 > p, "a better fill buys more room: {p2} vs {p}");
    let p = close("0.02", "0.19", "0.78").expect("still closes, barely");
    assert!(p < px("0.05"), "{}", px6(p));
    let e = close("0.02", "0.30", "0.85")
        .expect_err("$1.15 of basis against a 2c fill closes nothing")
        .text();
    assert!(e.contains("no PM-US price"), "{e}");
}

fn bid_at(ceiling: &str, bid: &str, ask: &str) -> String {
    px6(rest_price_bid(px(ceiling), Some(&x(bid)), Some(&x(ask))).expect("priced"))
}

#[test]
fn a_resting_bid_fronts_the_bid_queue_when_the_spread_allows_it() {
    assert_eq!(bid_at("0.9000", "0.16", "0.24"), "0.170000");
}

#[test]
fn a_one_tick_book_joins_the_bid_rather_than_crossing_the_offer() {
    assert_eq!(bid_at("0.9000", "0.20", "0.21"), "0.200000", "joined the bid");
}

#[test]
fn a_ceiling_under_the_touch_rests_the_bid_below_the_market() {
    assert_eq!(bid_at("0.1200", "0.16", "0.24"), "0.120000", "the ceiling wins, not the touch");
}

fn ask_at(floor: &str, bid: Option<&str>, ask: Option<&str>) -> String {
    let (bid, ask) = (bid.map(x), ask.map(x));
    let p = rest_price(&penny_ladder(), px(floor), bid.as_ref(), ask.as_ref());
    px6(p.expect("liftable"))
}

#[test]
fn the_lift_clears_the_bid_strictly_so_post_only_cannot_reject_it() {
    assert_eq!(ask_at("0.0100", Some("0.3000"), Some("0.3100")), "0.310000");
    assert_eq!(ask_at("0.3000", Some("0.3000"), None), "0.310000");
}

#[test]
fn a_wide_book_is_undercut_at_the_offer_rather_than_dumped_on_the_bid() {
    assert_eq!(ask_at("0.1000", Some("0.3200"), Some("0.3500")), "0.340000");
}

#[test]
fn a_floor_above_the_touch_is_left_exactly_where_it_is() {
    assert_eq!(ask_at("0.0800", Some("0.0300"), Some("0.0500")), "0.080000");
    assert_eq!(ask_at("0.0800", None, None), "0.080000");
}

#[test]
fn the_exit_floor_is_the_selection_floor() {
    assert_eq!(EXIT_FLOOR, px("0.02"));
}

#[test]
fn a_bid_at_a_dollar_leaves_no_ask_to_rest() {
    let e = rest_price(&penny_ladder(), px("0.9900"), Some(&x("0.99")), None);
    assert!(matches!(e, Err(PriceRefusal::NotAboveBid { .. })), "{e:?}");
    let e = rest_price(&penny_ladder(), ONE, None, None);
    assert!(matches!(e, Err(PriceRefusal::RestAtDollar { .. })), "{e:?}");
    let e = rest_price(&penny_ladder(), px("0.50"), Some(&x("1")), None);
    assert!(matches!(e, Err(PriceRefusal::OutsideLadder { .. })), "{e:?}");
}

#[test]
fn a_book_without_room_leaves_no_bid_to_rest() {
    let e = rest_price_bid(px("0.9000"), Some(&x("0.01")), Some(&x("0.01")));
    assert!(matches!(e, Err(PriceRefusal::NotBelowAsk { .. })), "{e:?}");
    let e = rest_price_bid(px("0.9000"), None, Some(&x("0.01")));
    assert!(matches!(e, Err(PriceRefusal::NotBelowAsk { .. })), "{e:?}");
    let e = rest_price_bid(px("0.0050"), Some(&x("0.01")), None);
    assert!(matches!(e, Err(PriceRefusal::NoPassiveBid { .. })), "{e:?}");
    assert_eq!(rest_price_bid(px("0.1200"), None, None), Ok(px("0.12")), "no book at all");
}

#[test]
fn a_ladder_without_a_bottom_rung_prices_nothing() {
    let e = exit_limit(
        &FeeSchedule::new(),
        &Vec::new(),
        &x("0.05"),
        &x("0.10"),
        &x("0.01"),
        5,
        Role::Maker,
        Role::Taker,
        MIN_LOCK,
    );
    assert!(e.is_err(), "{e:?}");
}

#[test]
fn fees_are_the_schedules_to_the_cent() {
    let fees = FeeSchedule::new();
    // 0.0175 * 0.19 * 0.81 * 34 = 0.0915705, rounded up to ten cents.
    assert_eq!(fees.fee(Venue::Kalshi, Role::Maker, px("0.19"), 34), FINE_DOLLAR / 10);
    // 0.07 * 0.10 * 0.90 * 4 = 0.0252, rounded up to three cents.
    assert_eq!(fees.fee(Venue::Kalshi, Role::Taker, px("0.10"), 4), FINE_DOLLAR * 3 / 100);
    assert_eq!(fees.fee(Venue::PolymarketUs, Role::Maker, px("0.40"), 7), 0);
    // 0.06 * 0.21 * 0.79 * 5 = 0.04977, not rounded.
    assert_eq!(
        fees.fee(Venue::PolymarketUs, Role::Taker, px("0.21"), 5),
        FINE_DOLLAR * 4_977 / 100_000
    );
}

#[test]
fn a_lock_is_what_the_pair_returns_over_what_it_cost() {
    // Sold at 0.23, closed at 0.23: a dollar back, less a one cent Kalshi fee
    // per five at the maker rate (0.0175 * 0.23 * 0.77 * 5 = 0.0155, so 2c) and
    // 0.06 * 0.23 * 0.77 * 5 = 0.05313 at PM-US.
    let l = lock_per_ct(
        &FeeSchedule::new(),
        (Role::Maker, Role::Taker),
        &x("0.23"),
        &x("0.23"),
        &x("0.43"),
        &x("0.43"),
        5,
    );
    // (5 * 0.14 - 0.02 - 0.05313) / 5
    assert_eq!(px6(l.shown()), "0.125374");
    assert!(at_least(&l, px("0.125374")));
    assert!(!at_least(&l, px("0.125375")));
}

#[test]
fn prices_are_read_and_written_exactly() {
    assert_eq!(px("0.2158"), 215_800);
    assert_eq!(px("1"), 1_000_000);
    assert_eq!(px("-0.2"), -200_000);
    for none in ["", "twenty", "0.2.1"] {
        assert!(Ratio::read(none).is_none(), "{none:?}");
    }
    assert_eq!(quantize(&x("0.21585")), px("0.2158"), "ties go to the even digit");
    assert_eq!(quantize(&x("0.2158500000000000000001")), px("0.2159"));
    assert_eq!(quantize(&x("-0.21585")), px("-0.2158"));
    assert_eq!(px4(215_800), "0.2158");
    assert_eq!(px6(192_941), "0.192941");
    assert_eq!(plain_text(250_000), "0.25");
    assert_eq!(plain_text(0), "0");
    assert_eq!(to_wire(px("0.215850")), px("0.2158"), "ties go to the even digit");
    assert_eq!(to_cent_floor(px("0.2199")), px("0.21"));
}

#[test]
fn a_deci_cent_ladder_steps_by_its_own_rung() {
    let l = vec![
        Rung { start: 0, end: 100_000, step: 1_000 },
        Rung { start: 100_000, end: 900_000, step: 10_000 },
        Rung { start: 900_000, end: 1_000_000, step: 1_000 },
    ];
    assert_eq!(rung_step(&l, px("0.05")), Some(1_000));
    assert_eq!(rung_step(&l, px("0.50")), Some(10_000));
    assert_eq!(ceil_to_tick(&l, 54_100, 1), Some(55_000));
    assert_eq!(ceil_to_tick(&l, 541_000, 1), Some(550_000));
    let through = |s: &str, selling: bool| kalshi_step(Some(&l), &x(s), selling).map(|p| six_of(&p));
    assert_eq!(through("0.50", true), Some(490_000));
    assert_eq!(through("0.95", false), Some(951_000));
    assert_eq!(through("0.0999999999", false), Some(101_000), "it stands on the lower rung");
    assert_eq!(through("1.00", false), None, "no rung holds a dollar");
    let by_the_cent = kalshi_step(None, &x("0.50"), true).map(|p| six_of(&p));
    assert_eq!(by_the_cent, Some(490_000));
    assert_eq!(step_of(&l, &micro_of(&x("0.0999999999"))), Some(1_000));
    assert_eq!(tick_above(&l, &micro_of(&x("0.0999999999"))), Some(100_000));
    assert_eq!(tick_above(&l, &micro_of(&x("0.1000000001"))), Some(110_000));
    assert_eq!(tick_above(&l, &micro_of(&x("0.9999999999"))), Some(1_000_000));
    assert_eq!(tick_above(&l, &micro_of(&x("-0.0000000001"))), None);
}

#[test]
fn a_malformed_ladder_holds_no_price() {
    assert_eq!(legal_ladder(&penny_ladder()), penny_ladder());
    for bad in [
        Rung { start: 0, end: ONE, step: 0 },
        Rung { start: 0, end: ONE, step: -CENT },
        Rung { start: i64::MIN, end: ONE, step: CENT },
        Rung { start: 0, end: i64::MAX, step: CENT },
        Rung { start: 0, end: ONE, step: i64::MAX },
    ] {
        let mut l = penny_ladder();
        l.push(bad);
        assert!(legal_ladder(&l).is_empty(), "{bad:?}");
    }
}

#[test]
fn the_least_ask_is_on_the_ladder_and_a_tick_less_would_not_pay() {
    let floor = floor_of("0.19", "0.78", "0.21").expect("solvable");
    assert_eq!(floor % CENT, 0);
    // 0.97 and half a cent, less the 0.79 - 0.009954 that the close returns,
    // is 0.194954; the ask at 0.20 nets 0.198 after a cent of fees per five.
    assert_eq!(px6(floor), "0.200000");
}

#[test]
fn what_is_quoted_is_taken_at_full_length() {
    // An ask of 0.20 nets 0.196 after a fee of two cents on five, and the basis
    // that leaves 0.005 of it against a close at 0.21 and its 0.009954 is 0.191046.
    let at = |k: &str| floor_of(k, "0.78", "0.21").map(px6);
    assert_eq!(at("0.191046"), Ok("0.200000".to_string()));
    assert_eq!(at("0.19104600000000000000000001"), Ok("0.210000".to_string()));
    assert_eq!(at("0.19104599999999999999999999"), Ok("0.200000".to_string()));
    // A fill at 0.25 brings 0.246, and a close at 0.26 costs 0.271544.
    let to = |k: &str| close("0.25", k, "0.78").map(px6);
    assert_eq!(to("0.189456"), Ok("0.260000".to_string()));
    assert_eq!(to("0.18945600000000000000000001"), Ok("0.250000".to_string()));
}

#[test]
fn a_quote_of_many_dollars_is_a_price_like_any_other() {
    // A bid of two hundred dollars leaves the close all of it, and its fee,
    // which is negative past a dollar.
    let p = close("200", "0.19", "0.78").expect("it pays for any close");
    assert!(p > px("200"), "{}", px6(p));
    let e = floor_of("250.5", "0.78", "0.21").expect_err("a lot that cost as much is not recovered");
    assert!(e.text().contains("250.500000 + 0.780000"), "{}", e.text());
    assert!(matches!(e, PriceRefusal::NeedsDollar { .. }), "{e:?}");
}

#[test]
fn a_rest_is_held_against_a_quote_exactly() {
    let rest = |bid: &str, ask: &str| {
        rest_price(&penny_ladder(), px("0.05"), Some(&x(bid)), Some(&x(ask))).map(px6)
    };
    assert_eq!(rest("0.30", "0.35"), Ok("0.340000".to_string()));
    assert_eq!(rest("0.30", "0.3500000001"), Ok("0.350000".to_string()), "a tick inside, rounded up");
    assert_eq!(rest("0.3000000001", "0.31"), Ok("0.320000".to_string()), "a tick over the bid");
    assert_eq!(bid_at("0.9000", "0.1600000001", "0.24"), "0.170000");
    assert_eq!(bid_at("0.9000", "0.1599999999", "0.24"), "0.160000");
    let e = rest_price_bid(px("0.9000"), None, Some(&x("0.0100000001")));
    assert!(matches!(e, Err(PriceRefusal::NoPassiveBid { .. })), "{e:?}");
}

#[test]
fn a_price_is_what_it_comes_to_however_it_is_spelled() {
    let plain = floor_of("0.19", "0.78", "0.21");
    assert_eq!(floor_of("19e-2", "0.780000000000", "+.21"), plain);
    assert_eq!(floor_of("0.30", "0.85", "0.95"), floor_of("3E-1", "0.8500", "0000.95"));
    assert_eq!(close("0.25", "0.19", "0.78"), close("25e-2", ".190", "78E-2"));
    assert_eq!(close("0.02", "0.30", "0.85"), close("2e-2", "0.3", "0.8500000"));
    let lock = |k: &str, p: &str| {
        let roles = (Role::Taker, Role::Maker);
        lock_per_ct(&FeeSchedule::new(), roles, &x(k), &x(p), &x("0.43"), &x("0.4300"), 3)
    };
    let (a, b) = (lock("0.23", "0.19"), lock("0.2300000", "19e-2"));
    assert!(!a.below(&b) && !b.below(&a), "one lock");
}
