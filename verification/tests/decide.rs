//! What is rested on a candidate, and why nothing is.
use arb_trader::board::EngineView;
use arb_trader::cycle::{judge, pursue, Cfg, Pursuit, Verdict};
use arb_trader::decimal::Ratio;
use arb_trader::decide::{decide, DecideRefusal, Exit, Lot, Quote, ShapeRefusal, MAX_CLIP};
use arb_trader::fees::FeeSchedule;
use arb_trader::gauges::{refused, Gauges};
use arb_trader::ladder::{penny_ladder, Rung};
use arb_trader::live::{Live, TargetRefusal};
use arb_trader::lot::close_depth_key;
use arb_trader::money::{px6, Px, ONE};
use arb_trader::order::Order;
use arb_trader::pricing::{exit_limit, six_of, PriceRefusal, MIN_LOCK};
use arb_trader::venue::{Direction, Role, Shape, Venue};

const SECOND: u64 = 1_000_000_000;
const NOW: u64 = 1_000 * SECOND;

fn px(s: &str) -> Px {
    six_of(&Ratio::read(s).expect("a price"))
}

fn quote(bid: &str, ask: &str) -> Quote {
    Quote {
        market: "K-a".to_string(),
        status: "active".to_string(),
        yes_bid: Some(bid.to_string()),
        yes_ask: Some(ask.to_string()),
        ladder: penny_ladder(),
    }
}

fn cand(qty: i64, opened_ts: f64) -> Exit {
    Exit {
        rel_id: "r1".to_string(),
        market_id: "K-a".to_string(),
        opened_ts: opened_ts.to_bits(),
        qty,
        actionable: true,
    }
}

fn side(market: &str, side: &str) -> (String, String) {
    (market.to_string(), side.to_string())
}

/// A view with all four sides yielded long enough ago.
fn view_with(pm_ask: &str, pm_bid: &str, k_bid: &str) -> EngineView {
    let then = NOW - 31 * SECOND;
    EngineView {
        apr_bar: 16_000_000,
        global_cap_usd: 500_000_000,
        pm_ask: vec![side("p-a", pm_ask)],
        pm_bid: vec![side("p-a", pm_bid)],
        k_bid: vec![side("K-a", k_bid)],
        k_ask: Vec::new(),
        k_ladder: Vec::new(),
        depth: Vec::new(),
        suppressed_at: vec![
            (side("K-a", "ask"), then),
            (side("p-a", "bid"), then),
            (side("K-a", "bid"), then),
            (side("p-a", "ask"), then),
        ],
    }
}

/// A one-tick PM-US book.
fn view(pm_ask: &str) -> EngineView {
    let bid = px6(px(pm_ask) - 10_000);
    view_with(pm_ask, &bid, "0.2000")
}

/// A Kalshi leg of `qty` bought at `k_yes`, with the fee its total paid.
fn k_lot(qty: i64, k_yes: &str, role: Role, ts: f64) -> Lot {
    let fee = FeeSchedule::new().fee(Venue::Kalshi, role, px(k_yes), qty);
    let per = fee / (i128::from(qty) * 10_000_000_000);
    Lot { qty, cost_per_ct: px6(px(k_yes) + per as i64), open_ts: ts.to_bits() }
}

/// A PM-US leg that is short the YES at `pm_yes`.
fn pm_lot(qty: i64, pm_yes: &str, ts: f64) -> Lot {
    Lot { qty, cost_per_ct: px6(ONE - px(pm_yes)), open_ts: ts.to_bits() }
}

struct Asked {
    gauges: Gauges,
    out: Result<Order, DecideRefusal>,
    text: String,
}

fn ask(
    k: Result<Lot, String>,
    pm: Result<Lot, String>,
    inflight: Result<(), String>,
    c: &Exit,
    q: &Quote,
    v: &EngineView,
    take_ok: bool,
) -> Asked {
    let mut gauges = Gauges::new();
    let fees = FeeSchedule::new();
    let out = decide(&mut gauges, &fees, &k, &pm, &inflight, c, "p-a", q, v, &Vec::new(), NOW, take_ok);
    let why = match (&inflight, &k, &pm) {
        (Err(e), _, _) => e.clone(),
        (_, Err(e), _) => e.clone(),
        (_, _, Err(e)) => e.clone(),
        _ => String::new(),
    };
    let text = match &out {
        Err(e) => e.text(c, "p-a", q, &why),
        Ok(_) => String::new(),
    };
    Asked { gauges, out, text }
}

fn basket(
    qty: i64,
    pm_yes: &str,
    k_yes: &str,
    q: &Quote,
    v: &EngineView,
    take_ok: bool,
) -> Asked {
    ask(
        Ok(k_lot(qty, k_yes, Role::Maker, 1.0)),
        Ok(pm_lot(qty, pm_yes, 1.0)),
        Ok(()),
        &cand(qty, 1.0),
        q,
        v,
        take_ok,
    )
}

#[test]
fn a_wide_pm_book_rests_the_bid_on_pmus_rather_than_the_ask_on_kalshi() {
    let q = quote("0.20", "0.22");
    let v = view_with("0.24", "0.16", "0.20");
    let o = basket(5, "0.78", "0.19", &q, &v, false).out.expect("the mirror shape pays");
    assert_eq!(o.shape, Shape::RestPmUs, "the wider spread is PM-US's");
    assert_eq!(o.rest_market(), "p-a", "and that is where the order rests");
    assert_eq!(o.close_market(), "K-a", "the Kalshi leg is what gets crossed");
    assert_eq!(o.limit, "0.1700", "one tick in front of the PM-US bid queue: {o:?}");
    assert!(o.runner_up_ct.is_some(), "the other shape was priced too: {o:?}");
}

#[test]
fn without_the_flag_a_cross_is_never_planned() {
    let q = quote("0.16", "0.24");
    let v = view_with("0.22", "0.20", "0.16");
    let o = basket(5, "0.57", "0.43", &q, &v, false).out.expect("the resting shape pays");
    assert!(o.cross.is_none(), "the flag is off, so nothing crosses: {o:?}");
}

#[test]
fn a_cross_that_clears_the_selection_floor_is_planned() {
    let q = quote("0.16", "0.24");
    let v = view_with("0.22", "0.20", "0.16");
    let o = basket(5, "0.57", "0.43", &q, &v, true).out.expect("the resting shape pays");
    assert_eq!(o.shape, Shape::RestKalshi, "the wider spread is Kalshi's");
    let c = o.cross.as_ref().expect("crossing clears the floor here");
    assert_eq!(c.limit, "0.1500", "a tick under the 0.16 bid we sell into: {o:?}");
    let crossed: f64 = c.lock_ct.parse().expect("a decimal");
    let rested: f64 = o.lock_ct.parse().expect("a decimal");
    assert!(crossed < rested, "crossing pays the spread: {c:?} vs {}", o.lock_ct);
    assert!(crossed >= 0.02, "and still clears the 0.02 selection floor: {c:?}");
}

#[test]
fn a_cross_whose_lift_side_is_not_yielded_rests_instead() {
    let q = quote("0.16", "0.24");
    let mut v = view_with("0.22", "0.20", "0.16");
    v.suppressed_at.retain(|s| s.0 != side("K-a", "bid"));
    let o = basket(5, "0.57", "0.43", &q, &v, true).out.expect("the resting shape still pays");
    assert_eq!(o.shape, Shape::RestKalshi);
    assert!(o.cross.is_none(), "the bid we would sell into is still ours: {o:?}");
    assert_eq!(o.limit, "0.2300", "and rests where it always did: {o:?}");
}

#[test]
fn a_cross_that_falls_under_the_selection_floor_is_refused() {
    let q = quote("0.16", "0.24");
    let v = view_with("0.22", "0.20", "0.16");
    let o = basket(5, "0.57", "0.46", &q, &v, true).out.expect("the resting shape still pays");
    assert!(o.cross.is_none(), "crossing does not clear the floor, so it rests: {o:?}");
    assert_eq!(o.limit, "0.2300", "and rests where it always did: {o:?}");
}

#[test]
fn a_wide_kalshi_book_still_rests_the_ask_on_kalshi() {
    let q = quote("0.16", "0.24");
    let v = view_with("0.22", "0.20", "0.16");
    let o = basket(5, "0.78", "0.19", &q, &v, false).out.expect("this shape pays");
    assert_eq!(o.shape, Shape::RestKalshi, "the wider spread is Kalshi's");
    assert_eq!(o.rest_market(), "K-a");
    assert_eq!(o.limit, "0.2300", "one tick inside the Kalshi offer: {o:?}");
}

#[test]
fn an_exact_tie_goes_to_rest_kalshi_the_way_marks_breaks_it() {
    let q = quote("0.19", "0.23");
    let v = view_with("0.23", "0.19", "0.19");
    let o = basket(5, "0.78", "0.19", &q, &v, false).out.expect("something pays");
    let a: f64 = o.lock_ct.parse().expect("lock parses");
    let b: f64 = o.runner_up_ct.as_ref().expect("both priced").parse().expect("parses");
    assert!(a >= b, "the chosen shape is never the worse one: {o:?}");
}

#[test]
fn a_refusal_names_what_each_shape_would_have_done() {
    let q = quote("0.20", "0.22");
    let v = view_with("0.90", "0.86", "0.20");
    let a = basket(5, "0.30", "0.70", &q, &v, false);
    assert!(a.out.is_err(), "nothing pays");
    assert!(a.text.contains("rest-kalshi:"), "{}", a.text);
    assert!(a.text.contains("rest-pmus:"), "{}", a.text);
}

#[test]
fn resting_on_pmus_needs_the_pmus_bid_yielded_not_the_kalshi_ask() {
    let q = quote("0.20", "0.22");
    let mut v = view_with("0.24", "0.16", "0.20");
    v.suppressed_at.retain(|s| s.0 != side("p-a", "bid"));
    let a = basket(5, "0.78", "0.19", &q, &v, false);
    assert_eq!(a.out.err(), Some(DecideRefusal::NotYielded { shape: Shape::RestPmUs }));
    assert!(a.text.contains("p-a:bid"), "it names the side it needs: {}", a.text);
}

#[test]
fn a_held_candidate_with_a_ledger_basis_and_a_yielded_ask_prices_an_exit() {
    let o = basket(34, "0.22", "0.19", &quote("0.10", "0.30"), &view("0.20"), false)
        .out
        .expect("a priced exit");
    assert_eq!(o.qty, MAX_CLIP, "capped at the clip, not the 34-lot");
    assert_eq!(f64::from_bits(o.closes_ts), 1.0, "one lot, so one closes_ts");
    assert_eq!(o.k_basis, "0.192941");
    assert_eq!(o.pm_basis, "0.780000", "1 - 0.22, the cost of the NO");
    assert_eq!(o.pm_market, "p-a");
    assert!(o.limit.parse::<f64>().unwrap() > 0.10, "and it does not cross: {}", o.limit);
}

#[test]
fn a_lot_our_own_ledger_cannot_vouch_for_is_never_exited() {
    let none = "no open ledger record for r1 opened at 1. No other lot is substituted";
    let a = ask(
        Err(none.to_string()),
        Ok(pm_lot(5, "0.22", 1.0)),
        Ok(()),
        &cand(5, 1.0),
        &quote("0.10", "0.30"),
        &view("0.20"),
        false,
    );
    assert_eq!(a.out.err(), Some(DecideRefusal::KalshiLot), "no open lot");
    assert!(a.text.contains("no open ledger record for r1 opened at 1"), "{}", a.text);
    assert!(a.text.contains("No other lot is substituted"), "{}", a.text);

    let a = ask(
        Ok(k_lot(5, "0.19", Role::Taker, 1.0)),
        Err("the leg is long".to_string()),
        Ok(()),
        &cand(5, 1.0),
        &quote("0.10", "0.30"),
        &view("0.20"),
        false,
    );
    assert_eq!(a.out.err(), Some(DecideRefusal::PmLot));
    assert!(a.text.contains("PM-US leg"), "the refusal names the side: {}", a.text);
}

#[test]
fn nothing_rests_until_the_entry_quoter_has_had_time_to_yield_the_ask() {
    let q = quote("0.10", "0.30");
    let mut never = view("0.20");
    never.suppressed_at = Vec::new();
    let a = basket(34, "0.22", "0.19", &q, &never, false);
    assert!(a.out.is_err(), "the quoter has not been told");
    assert!(a.text.contains("yield"), "{}", a.text);

    let mut just_now = view("0.20");
    just_now.suppressed_at = vec![(side("K-a", "ask"), NOW)];
    let a = basket(34, "0.22", "0.19", &q, &just_now, false);
    assert_eq!(
        a.out.err(),
        Some(DecideRefusal::Settling { shape: Shape::RestKalshi, age_ns: 0 }),
        "told, but not yet settled"
    );
    assert!(a.text.contains("giving it"), "{}", a.text);
}

#[test]
fn the_exit_is_priced_off_the_selected_lot_and_not_a_composite_of_the_dearest_legs() {
    // The dearest legs belong to different records, and together cost more
    // than the dollar that a pair pays.
    let k = k_lot(5, "0.10", Role::Taker, 2.0);
    let pm = pm_lot(5, "0.104", 1.0);
    let (kb, pb) = (px(&k.cost_per_ct), px(&pm.cost_per_ct));
    assert!(kb + pb > ONE, "the composite is {}", px6(kb + pb));
    let composite_floor = exit_limit(
        &FeeSchedule::new(),
        &penny_ladder(),
        &Ratio::dollars(kb),
        &Ratio::dollars(pb),
        &Ratio::dollars(px("0.06")),
        4,
        Role::Maker,
        Role::Taker,
        MIN_LOCK,
    )
    .expect("legal, which is exactly why nobody caught it");
    assert_eq!(px6(composite_floor), "0.080000", "three rungs behind a 0.05 offer");

    let o = ask(
        Ok(k_lot(4, "0.10", Role::Taker, 3.0)),
        Ok(pm_lot(4, "0.18", 3.0)),
        Ok(()),
        &cand(4, 3.0),
        &quote("0.0300", "0.0500"),
        &view("0.05"),
        false,
    )
    .out
    .expect("the selected lot is exitable");
    assert_eq!(f64::from_bits(o.closes_ts), 3.0, "the selected record: {o:?}");
    assert_eq!(o.k_basis, "0.107500");
    assert_eq!(o.pm_basis, "0.820000");
    assert_eq!(o.qty, 4);
    assert_eq!(o.limit, "0.0400", "at the touch, not three ticks above the offer");
}

#[test]
fn a_lock_between_the_two_floors_is_re_priced_not_taken() {
    let o = basket(5, "0.10", "0.19", &quote("0.0100", "0.1000"), &view("0.20"), false)
        .out
        .expect("the ladder has a rung that clears the selection floor");
    assert_eq!(o.limit, "0.3400", "one rung above 0.3300: {o:?}");
    let lock: f64 = o.lock_ct.parse().expect("a decimal");
    assert!(lock >= 0.02, "and it clears the selection floor: {}", o.lock_ct);
}

#[test]
fn each_lot_on_one_ticker_prices_to_its_own_basis() {
    let q = quote("0.0100", "0.1000");
    let dear = basket(5, "0.10", "0.19", &q, &view("0.20"), false).out.expect("dear").limit;
    let cheap = basket(5, "0.30", "0.19", &q, &view("0.20"), false).out.expect("cheap").limit;
    assert_ne!(dear, cheap, "one floor for two different baskets is the bug");
    assert!(px(&dear) > px(&cheap), "the lot that cost more needs more: {dear}, {cheap}");
}

#[test]
fn a_floor_under_the_bid_is_lifted_over_it_rather_than_walked_away_from() {
    let o = basket(34, "0.22", "0.19", &quote("0.9000", "0.9500"), &view("0.20"), false)
        .out
        .expect("a bid above the floor is the best case, not a refusal");
    assert_eq!(o.limit, "0.9400", "one rung inside the 0.95 offer, not the floor: {o:?}");
}

#[test]
fn a_market_the_venue_is_not_trading_is_never_rested_into() {
    let mut q = quote("0.10", "0.30");
    q.status = "finalized".to_string();
    let a = basket(34, "0.22", "0.19", &q, &view("0.20"), false);
    assert_eq!(a.out.err(), Some(DecideRefusal::NotActive));
    assert!(a.text.contains("not `active`"), "{}", a.text);
}

#[test]
fn a_candidate_outside_the_rel_prefix_scope_is_never_exited() {
    let mut c = cand(34, 1.0);
    c.actionable = false;
    let a = ask(
        Ok(k_lot(34, "0.19", Role::Maker, 1.0)),
        Ok(pm_lot(34, "0.22", 1.0)),
        Ok(()),
        &c,
        &quote("0.10", "0.30"),
        &view("0.20"),
        false,
    );
    assert_eq!(a.out.err(), Some(DecideRefusal::OutOfScope), "not ours");
    assert!(a.text.contains("--rel-prefix"), "{}", a.text);
}

#[test]
fn an_exit_whose_close_leg_has_no_book_is_refused() {
    let mut dark = view("0.20");
    dark.pm_ask = Vec::new();
    let a = basket(34, "0.22", "0.19", &quote("0.10", "0.30"), &dark, false);
    assert_eq!(a.out.err(), Some(DecideRefusal::NoPmAsk));
    assert!(a.text.contains("unpriceable"), "{}", a.text);
    assert!(a.text.contains("one-legged trade"), "and says why: {}", a.text);
}

#[test]
fn an_exit_is_not_rested_where_the_engine_already_owes_a_hedge() {
    let a = ask(
        Ok(k_lot(34, "0.19", Role::Maker, 1.0)),
        Ok(pm_lot(34, "0.22", 1.0)),
        Err("the engine owes a hedge on K-a and completing it would double hedge".to_string()),
        &cand(34, 1.0),
        &quote("0.10", "0.30"),
        &view("0.20"),
        false,
    );
    assert_eq!(a.out.err(), Some(DecideRefusal::Inflight), "the engine owes a hedge here");
    assert!(a.text.contains("double hedge"), "the registry's own words: {}", a.text);
    assert!(a.text.contains("taker_at_cross"), "and why it matters here: {}", a.text);
    assert_eq!(refused(&a.gauges), 1, "'not now' is a refusal, not a halt");
}

#[test]
fn a_refusal_counts_once_and_an_exit_not_at_all() {
    let q = quote("0.10", "0.30");
    let mut dark = view("0.20");
    dark.pm_ask = Vec::new();
    assert_eq!(refused(&basket(5, "0.22", "0.19", &q, &dark, false).gauges), 1);
    assert_eq!(refused(&basket(5, "0.22", "0.19", &q, &view("0.20"), false).gauges), 0);
}

#[test]
fn prices_that_are_no_prices_are_named() {
    let q = quote("0.10", "0.30");
    let mut odd = view("0.20");
    odd.pm_ask = vec![side("p-a", "twenty")];
    assert_eq!(basket(5, "0.22", "0.19", &q, &odd, false).out.err(), Some(DecideRefusal::BadPmAsk));
    let broken = Lot { qty: 5, cost_per_ct: "?".to_string(), open_ts: 0 };
    let whole = || Ok(pm_lot(5, "0.22", 1.0));
    let a = ask(Ok(broken), whole(), Ok(()), &cand(5, 1.0), &q, &view("0.20"), false);
    assert_eq!(a.out.err(), Some(DecideRefusal::BadKalshiBasis));
    let broken = Lot { qty: 5, cost_per_ct: "?".to_string(), open_ts: 0 };
    let k = Ok(k_lot(5, "0.19", Role::Maker, 1.0));
    let a = ask(k, Ok(broken), Ok(()), &cand(5, 1.0), &q, &view("0.20"), false);
    assert_eq!(a.out.err(), Some(DecideRefusal::BadPmBasis));
    let k = Ok(k_lot(5, "0.19", Role::Maker, 1.0));
    let a = ask(k, whole(), Ok(()), &cand(0, 1.0), &q, &view("0.20"), false);
    assert_eq!(a.out.err(), Some(DecideRefusal::NothingToExit { k: 5, pm: 5, marks: 0 }));
}

// --------------------------------------------------------------- the cycle

fn cfg(pairs: &[(&str, &str)]) -> Cfg {
    Cfg {
        marks_path: "marks.json".to_string(),
        rel_prefixes: Vec::new(),
        pm_market: pairs.iter().map(|p| side(p.0, p.1)).collect(),
    }
}

/// A slot whose candidates have been held long enough.
fn warmed(c: &Vec<Exit>, shadow: bool) -> Live {
    let mut l = Live::new(shadow, "trades.jsonl".to_string());
    for i in 0..4 {
        let _ = l.target(c, i * 120 * SECOND, NOW, 0);
    }
    l
}

#[test]
fn a_cycle_asks_for_the_quote_of_a_candidate_that_can_be_closed() {
    let c = vec![cand(5, 1.0)];
    let mut g = Gauges::new();
    let mut l = warmed(&c, false);
    let at = 480 * SECOND;
    match pursue(&mut l, &mut g, &cfg(&[("r1", "p-a")]), &c, at, NOW) {
        Pursuit::Quote { at, pm } => assert_eq!((at, pm.as_str()), (0, "p-a")),
        other => panic!("{other:?}"),
    }
    assert_eq!(refused(&g), 0);
    let r = pursue(&mut l, &mut g, &cfg(&[]), &c, at, NOW);
    assert!(matches!(r, Pursuit::NoLeg { at: 0 }), "{r:?}");
    assert_eq!(refused(&g), 1, "without a leg to close it is refused");
    g.note_unresolved();
    let r = pursue(&mut l, &mut g, &cfg(&[("r1", "p-a")]), &c, at, NOW);
    assert!(
        matches!(r, Pursuit::Nothing { why: TargetRefusal::Halted { outstanding: 1, .. }, .. }),
        "{r:?}"
    );
}

#[test]
fn a_cycle_decides_only_on_what_it_could_read() {
    let c = vec![cand(5, 1.0)];
    let mut g = Gauges::new();
    let l = warmed(&c, false);
    let q = quote("0.10", "0.30");
    let v = view("0.20");
    let k = Ok(k_lot(5, "0.19", Role::Maker, 1.0));
    let pm = Ok(pm_lot(5, "0.22", 1.0));
    let r = judge(&l, &mut g, &c[0], "p-a", None, Some((&k, &pm)), &Ok(()), &v, &Vec::new(), NOW);
    assert!(matches!(r, Verdict::NoQuote), "{r:?}");
    let r = judge(&l, &mut g, &c[0], "p-a", Some(&q), None, &Ok(()), &v, &Vec::new(), NOW);
    assert!(matches!(r, Verdict::NoLedger), "{r:?}");
    assert_eq!(refused(&g), 2);
    let r = judge(&l, &mut g, &c[0], "p-a", Some(&q), Some((&k, &pm)), &Ok(()), &v, &Vec::new(), NOW);
    assert!(matches!(r, Verdict::Place { .. }), "{r:?}");
    let shadow = warmed(&c, true);
    let r = judge(&shadow, &mut g, &c[0], "p-a", Some(&q), Some((&k, &pm)), &Ok(()), &v, &Vec::new(), NOW);
    assert!(matches!(r, Verdict::Shadow { .. }), "a shadow sends nothing: {r:?}");
    assert_eq!(refused(&g), 2);
}

#[test]
fn an_exit_is_sized_within_what_is_left_of_its_closing_ladder() {
    let q = quote("0.10", "0.30");
    let mut v = view("0.20");
    let ask_of = |v: &EngineView, claims: &Vec<(String, i64)>| {
        let (k, pm) = (Ok(k_lot(5, "0.19", Role::Maker, 1.0)), Ok(pm_lot(5, "0.22", 1.0)));
        let fees = FeeSchedule::new();
        let c = cand(5, 1.0);
        decide(&mut Gauges::new(), &fees, &k, &pm, &Ok(()), &c, "p-a", &q, v, claims, NOW, false)
    };
    let free = ask_of(&v, &Vec::new()).expect("an exit");
    assert_eq!((free.shape, free.qty), (Shape::RestKalshi, 5), "no depth is known");
    let ladder = close_depth_key(Direction::Standard, Shape::RestKalshi, "K-a", "p-a");
    v.depth = vec![(ladder.clone(), 7)];
    assert_eq!(ask_of(&v, &Vec::new()).expect("an exit").qty, 5);
    let claims = vec![(ladder.clone(), 4)];
    assert_eq!(ask_of(&v, &claims).expect("an exit").qty, 3);
    let claims = vec![(ladder, 7)];
    match ask_of(&v, &claims) {
        Ok(o) => assert_eq!(o.shape, Shape::RestPmUs, "nothing is left to close this one on"),
        Err(DecideRefusal::NeitherPays { a, .. }) => assert_eq!(a, ShapeRefusal::NoDepth),
        Err(e) => panic!("{e:?}"),
    }
}

#[test]
fn quotes_finer_than_a_millionth_are_taken_as_they_are() {
    let plain = basket(5, "0.22", "0.19", &quote("0.10", "0.30"), &view("0.20"), false);
    let o = plain.out.expect("an exit");
    assert_eq!((o.shape, o.limit.as_str()), (Shape::RestKalshi, "0.2900"), "a tick inside the ask");
    let q = quote("0.10000000001", "0.30000000001");
    let fine = basket(5, "0.22", "0.19", &q, &view_with("0.1999999999", "0.1900", "0.2000"), false);
    let f = fine.out.expect("it is priced all the same");
    assert_eq!((f.shape, f.qty, f.limit.as_str()), (Shape::RestKalshi, 5, "0.3000"));
    assert_eq!(f.pm_ask_at_decision, "0.1999999999");
}

#[test]
fn a_cost_of_many_dollars_is_a_price_and_is_not_recovered() {
    let mut k = k_lot(5, "0.19", Role::Maker, 1.0);
    k.cost_per_ct = "250.5".to_string();
    let pm = pm_lot(5, "0.22", 1.0);
    let q = quote("0.10", "0.30");
    match ask(Ok(k), Ok(pm), Ok(()), &cand(5, 1.0), &q, &view("0.20"), false).out {
        Err(DecideRefusal::NeitherPays { a: ShapeRefusal::Price(e), .. }) => {
            assert!(e.text().contains("against a basis of 250.500000 + "), "{}", e.text());
        },
        other => panic!("{other:?}"),
    }
}

#[test]
fn a_malformed_ladder_refuses_the_shape_that_rests_on_it() {
    let mut q = quote("0.10", "0.30");
    q.ladder = vec![Rung { start: 0, end: ONE, step: 0 }];
    match basket(5, "0.22", "0.19", &q, &view("0.20"), false).out {
        Ok(o) => assert_eq!(o.shape, Shape::RestPmUs, "the other one does not need it"),
        Err(DecideRefusal::NeitherPays { a: ShapeRefusal::Price(e), .. }) => {
            assert!(matches!(e, PriceRefusal::NoSpelling { .. } | PriceRefusal::NoBottomRung), "{e:?}");
        },
        Err(e) => panic!("{e:?}"),
    }
}
