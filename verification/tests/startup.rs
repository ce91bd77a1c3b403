//! What a run may touch before it starts, and what it says of itself.
use arb_trader::args::{default_args, parse_args, ArgError, Args};
use arb_trader::live::Live;
use arb_trader::naked_act;
use arb_trader::policy::{
    apr_bar, feed_age, feed_install, find_undated, hurdle, run_cfg, suppressed_names,
    toxgate_file, FeedAge, FeedInstall, APR_CEIL, APR_FLOOR,
};
use arb_trader::standoff::{working_check, StandOff};
use arb_trader::snapshot::publish_balances;
use arb_trader::startup::{
    arming, balance_cycle, balance_line, cancel_preconditions, exit_start, is_bench,
    kalshi_credentials, kalshi_suffix, maker_exit_shadow, moved, order_preconditions,
    place_preconditions, pmus_credentials, pmus_feed_suffix, pmus_suffix, rate, recon_act_shadow,
    recon_start, source, startup_sweep, sweep_only_blast_radius, sweep_only_code, up_mode, Arming, ExitStart,
    Rate, ReconStart, Source, SweepResult, EXIT_BOOK_UNCONFIRMED, EXIT_NOT_CLEAN, EXIT_REFUSED,
};
use arb_trader::venue::Side;

fn pair(a: &str, b: &str) -> (String, String) {
    (a.to_string(), b.to_string())
}

fn parse(argv: &[&str]) -> Result<Args, ArgError> {
    parse_args(&argv.iter().map(|s| s.to_string()).collect())
}

// ----------------------------------------------------------- preconditions

#[test]
fn placing_requires_a_feed_cash_health_and_a_readable_ledger() {
    let mut a = default_args();
    a.files.ledger = "/nonexistent/dir/trades.jsonl".to_string();
    a.files.health = String::new();
    let missing = place_preconditions(&a, Some("no such file")).join("\n");
    assert!(missing.contains("--socket"), "{missing}");
    assert!(missing.contains("--balance"), "{missing}");
    assert!(missing.contains("--health"), "{missing}");
    assert!(missing.contains("ledger"), "{missing}");
}

#[test]
fn cancelling_requires_none_of_them() {
    let missing = cancel_preconditions(false, Some("KEY unset"), Some("KEY unset"));
    let joined = missing.join("\n");
    for forbidden in ["--socket", "--balance", "--health", "ledger"] {
        assert!(!joined.contains(forbidden), "a cancel needs no {forbidden}: {joined}");
    }
    assert_eq!(missing.len(), 2, "credentials, and nothing else: {joined}");
    assert!(cancel_preconditions(false, None, None).is_empty());
}

#[test]
fn sweep_only_names_the_key_it_will_cancel_under() {
    let none = sweep_only_blast_radius(&Vec::new(), false).join("\n");
    assert!(none.contains("WHOLE ACCOUNT"), "{none}");
    assert_eq!(none.matches("PRIMARY key").count(), 2, "both venues warn: {none}");
    assert!(none.contains("SHARED WITH THE PYTHON STACK"), "{none}");
    let (k, p) = none.split_once("polymarket_us").expect("both venues");
    assert!(!k.contains("WHOLE ACCOUNT"), "kalshi is scoped: {k}");
    assert!(p.contains("WHOLE ACCOUNT"), "PM-US has no id of ours to scope by: {p}");

    let un = sweep_only_blast_radius(&Vec::new(), true).join("\n");
    let (uk, _) = un.split_once("polymarket_us").expect("both venues");
    assert!(uk.contains("--sweep-unscoped IS SET"), "{uk}");
    assert!(uk.contains("WHOLE ACCOUNT"), "the wider radius must be stated: {uk}");

    let both = sweep_only_blast_radius(
        &vec![pair("kalshi", "rs_trader"), pair("pmus", "rs_trader")],
        false,
    )
    .join("\n");
    assert!(!both.contains("PRIMARY key"), "a suffixed run is scoped: {both}");
    assert_eq!(both.matches("suffix `rs_trader`").count(), 2);

    let half = sweep_only_blast_radius(&vec![pair("pmus", "rs_trader")], false).join("\n");
    assert!(half.contains("kalshi        -> PRIMARY key"), "{half}");
    assert!(half.contains("polymarket_us -> suffix `rs_trader`"), "{half}");
}

#[test]
fn bench_can_never_touch_a_venue() {
    let err = cancel_preconditions(true, None, None).join("\n");
    assert!(err.contains("bench/replay"), "{err}");
}

#[test]
fn the_positions_reconciliation_is_off_by_default() {
    assert!(!default_args().modes.positions_recon);
}

#[test]
fn completing_naked_legs_is_off_by_default() {
    assert!(!default_args().modes.positions_recon_act);
    assert!(!default_args().modes.positions_recon_act_shadow);
    assert_eq!(recon_act_shadow(false, false), None, "neither flag places anything");
}

#[test]
fn asking_for_both_shadow_and_armed_gets_shadow() {
    assert_eq!(recon_act_shadow(true, false), Some(false), "armed");
    assert_eq!(recon_act_shadow(false, true), Some(true), "shadow");
    assert_eq!(recon_act_shadow(true, true), Some(true), "and shadow wins over armed");
}

#[test]
fn the_maker_exit_is_off_by_default() {
    assert!(!default_args().modes.maker_exit);
    assert!(!default_args().modes.maker_exit_shadow);
    assert_eq!(maker_exit_shadow(false, false), None, "neither flag places anything");
    let cfg = run_cfg(default_args(), false, true, true, 0, None);
    assert!(!cfg.maker_exit_view, "an unflagged run must publish no view");
    assert!(working_check(&StandOff::new(), "anything", 0).is_ok(), "and stands nobody off");
}

#[test]
fn a_shadow_maker_exit_stands_nobody_off() {
    let mut a = default_args();
    a.modes.maker_exit_shadow = true;
    assert_eq!(exit_start(&a, true, true, 1), ExitStart::Shadow);
    // Only an armed start arms the stand-off.
    assert!(working_check(&StandOff::new(), "K-a", 0).is_ok());
}

#[test]
fn the_banner_names_the_order_path_state() {
    assert_eq!(up_mode(true, true, true), "bench", "bench outranks everything");
    assert_eq!(up_mode(false, true, true), "ARMED");
    assert_eq!(up_mode(false, true, false), "dry-run", "one flag only reports and exits");
    assert_eq!(up_mode(false, false, false), "dry-run");
}

#[test]
fn asking_for_both_maker_exit_and_its_shadow_gets_shadow() {
    assert_eq!(maker_exit_shadow(true, false), Some(false), "armed");
    assert_eq!(maker_exit_shadow(false, true), Some(true), "shadow");
    assert_eq!(maker_exit_shadow(true, true), Some(true), "and shadow wins over armed");
    let live = Live::new(maker_exit_shadow(true, true).expect("some"), "/dev/null".to_string());
    assert!(live.shadow, "shadow must survive the trip to the placer");
}

#[test]
fn either_maker_exit_flag_makes_the_engine_publish_its_view() {
    for (act, shadow) in [(true, false), (false, true), (true, true)] {
        let mut a = default_args();
        a.modes.maker_exit = act;
        a.modes.maker_exit_shadow = shadow;
        let cfg = run_cfg(a, false, true, true, 0, None);
        assert!(cfg.maker_exit_view, "act={act} shadow={shadow}");
    }
    let mut a = default_args();
    a.modes.maker_exit = true;
    let bench = run_cfg(a, true, true, true, 0, None);
    assert!(!bench.maker_exit_view, "a digest replay must not acquire a publisher");
}

#[test]
fn the_naked_leg_completer_is_capped_small() {
    assert!(
        (1..10).contains(&naked_act::MAX_CLIP),
        "single digits: {}",
        naked_act::MAX_CLIP
    );
    assert!(
        (1..=3).contains(&naked_act::MAX_ACTIONS_PER_CYCLE),
        "a bad venue read must not become a burst: {}",
        naked_act::MAX_ACTIONS_PER_CYCLE
    );
}

#[test]
fn arming_takes_both_flags_and_a_sweep_only_cancels() {
    let mut a = default_args();
    assert_eq!(arming(&a), Arming::Off);
    a.orders.enable_orders = true;
    assert_eq!(arming(&a), Arming::Report);
    a.orders.confirm_live = true;
    assert_eq!(arming(&a), Arming::Place);
    a.orders.sweep_only = true;
    assert_eq!(arming(&a), Arming::Cancel);
    let place = vec!["a feed".to_string()];
    let cancel = vec!["a key".to_string()];
    assert_eq!(order_preconditions(place, cancel.clone()), vec!["a feed".to_string()]);
    assert_eq!(order_preconditions(Vec::new(), cancel.clone()), cancel);
}

#[test]
fn credentials_are_named_after_their_suffix() {
    let given = vec![pair("kalshi", "rs"), pair("pmus", "pm")];
    assert_eq!(kalshi_suffix(&given), Some("rs"));
    assert_eq!(pmus_suffix(&given), Some("pm"));
    assert_eq!(pmus_suffix(&vec![pair("polymarket_us", "long")]), Some("long"));
    assert_eq!(kalshi_suffix(&Vec::new()), None);
    let both = vec![pair("polymarket_us", "long"), pair("pmus", "pm")];
    assert_eq!(pmus_suffix(&both), Some("pm"), "orders go by the short name first");
    assert_eq!(pmus_feed_suffix(&both), Some("long"), "the feed by the one that comes first");
    assert_eq!(pmus_feed_suffix(&given), Some("pm"));
    let (key, secret) = kalshi_credentials(None);
    let (key_rs, secret_rs) = kalshi_credentials(Some("rs"));
    assert_eq!((key.as_str(), secret.as_str()), ("kalshi_api_key_id", "kalshi_private_key.pem"));
    assert_eq!(
        (key_rs.as_str(), secret_rs.as_str()),
        ("kalshi_rs_api_key_id", "kalshi_rs_private_key.pem")
    );
    let (key, secret) = pmus_credentials(None);
    let (key_rs, secret_rs) = pmus_credentials(Some("rs"));
    assert_eq!((key.as_str(), secret.as_str()), ("polymarket_usa_key_id", "polymarket_usa_private_key"));
    assert_eq!(
        (key_rs.as_str(), secret_rs.as_str()),
        ("polymarket_usa_rs_key_id", "polymarket_usa_rs_private_key")
    );
}

// ------------------------------------------------------------------ sweeps

fn swept(r: SweepResult) -> Result<Vec<String>, String> {
    startup_sweep(&vec![("PolymarketUs".to_string(), r)])
}

#[test]
fn a_sweep_that_leaves_orders_resting_is_an_error() {
    let err = swept(SweepResult::Failed { why: "1 order(s) SURVIVED: [b]".to_string() })
        .expect_err("not clean");
    assert!(err.contains("SURVIVED"), "{err}");
    assert!(err.contains('b'), "names what is left: {err}");
}

#[test]
fn an_unreadable_resting_list_arms_loudly_instead_of_refusing() {
    let unconfirmed =
        swept(SweepResult::Unconfirmed { why: "could NOT be proven clean".to_string() })
            .expect("an unread list is not a leak");
    assert_eq!(unconfirmed.len(), 1, "the venue must be reported, not just tolerated");
    assert!(unconfirmed[0].contains("PolymarketUs"), "{unconfirmed:?}");
    assert!(unconfirmed[0].contains("could NOT be proven clean"), "{unconfirmed:?}");
    assert_eq!(sweep_only_code(&unconfirmed), EXIT_BOOK_UNCONFIRMED);
}

#[test]
fn a_clean_book_reports_nothing_unconfirmed() {
    let unconfirmed = swept(SweepResult::Clean).expect("clean");
    assert!(unconfirmed.is_empty());
    assert_eq!(sweep_only_code(&unconfirmed), 0);
}

#[test]
fn a_cancel_all_the_venue_refused_still_refuses_to_arm() {
    let both = vec![
        ("Kalshi".to_string(), SweepResult::Clean),
        (
            "PolymarketUs".to_string(),
            SweepResult::Failed { why: "could NOT be proven clean".to_string() },
        ),
    ];
    let err = startup_sweep(&both).expect_err("refused");
    assert!(err.contains("could NOT be proven clean"), "{err}");
    assert_ne!(EXIT_NOT_CLEAN, EXIT_REFUSED);
}

// ---------------------------------------------------------------- balances

#[test]
fn a_cycle_reports_each_venue_under_the_name_the_gate_keys_on() {
    let pairs = balance_cycle(Ok("320.4300".to_string()), Ok("329.29805".to_string()))
        .expect("both venues answered");
    assert_eq!(pairs, vec![pair("kalshi", "320.4300"), pair("polymarket_us", "329.29805")]);
    let line = balance_line(&pairs);
    assert!(line.contains("320.4300") && line.contains("329.29805"), "{line}");
}

#[test]
fn a_venue_that_could_not_be_read_abandons_the_whole_cycle() {
    let e = balance_cycle(Ok("320.4300".to_string()), Err("503".to_string()))
        .expect_err("half an answer is not an answer");
    assert!(e.contains("polymarket_us"), "{e}");
    let e = balance_cycle(Err("503".to_string()), Ok("329.29805".to_string()))
        .expect_err("and symmetrically");
    assert!(e.contains("kalshi"), "{e}");
}

#[test]
fn a_refusal_never_becomes_a_zero_balance() {
    let r = balance_cycle(Err("503".to_string()), Err("503".to_string()));
    assert!(r.is_err(), "got {r:?}");
}

#[test]
fn an_unmoved_balance_is_not_news() {
    let now = vec![pair("kalshi", "1")];
    assert!(moved(&None, &now));
    assert!(!moved(&Some(vec![pair("kalshi", "1")]), &now));
    assert!(moved(&Some(vec![pair("kalshi", "2")]), &now));
}

// ------------------------------------------------------------------ policy

#[test]
fn the_hurdle_floats_with_capital_utilization() {
    assert_eq!(apr_bar(0), APR_FLOOR, "idle capital takes the floor");
    assert_eq!(apr_bar(1_000_000), APR_CEIL, "a full book demands the ceiling");
    let third = apr_bar(333_333);
    assert!((third - 8_000_000).abs() < 10_000, "{third}");
    let over = apr_bar(1_012_244);
    assert_eq!(over, APR_CEIL, "an over-cap book is clamped to the ceiling");
    assert!(over > 12_000_000, "a flat bar would under-charge a full book: {over}");
    assert!((apr_bar(666_667) - 12_000_000).abs() < 10_000);
    assert_eq!(apr_bar(-1), APR_FLOOR);
}

#[test]
fn bench_has_no_floating_bar_but_honors_an_explicit_one() {
    assert_eq!(hurdle(None, None), 0, "nothing to float on");
    assert_eq!(hurdle(Some(APR_CEIL), None), APR_CEIL, "an explicit bar bites all the same");
    assert_eq!(hurdle(None, Some(0)), APR_FLOOR);
}

#[test]
fn a_negative_min_apr_is_taken_literally_not_read_as_a_sentinel() {
    assert_eq!(hurdle(Some(-5_000_000), None), -5_000_000);
    assert!(find_undated(-5_000_000, &vec![false, true]).is_empty(), "no bar, nothing to date");
    assert_eq!(find_undated(1, &vec![false, true, false]), vec![0, 2]);
}

#[test]
fn the_toxgate_is_off_unless_a_path_is_given() {
    assert_eq!(toxgate_file(&None), None, "no flag, no gate");
    assert_eq!(toxgate_file(&Some(String::new())), None, "empty is off too");
    let pinned = Some("/pinned/toxgate.json".to_string());
    assert_eq!(toxgate_file(&pinned), pinned, "and a path turns it on");
}

#[test]
fn a_stale_toxgate_file_does_not_silently_permit() {
    let day = 86_400;
    assert_eq!(feed_age(10 * day, 7 * day, day, 60), FeedAge::Old);
    assert_eq!(feed_age(7 * day, 10 * day, day, 60), FeedAge::Future);
    assert_eq!(feed_age(10 * day, 10 * day - 5, day, 60), FeedAge::Current);
    assert_eq!(feed_install(true, FeedAge::Old), FeedInstall::Withholds, "it still covers");
    assert_eq!(feed_install(false, FeedAge::Old), FeedInstall::Nothing, "a missing file");
    assert_eq!(feed_install(true, FeedAge::Current), FeedInstall::Scores);
}

#[test]
fn suppressed_markets_are_named_once_in_order() {
    let v = vec![
        ("P".to_string(), Side::Bid),
        ("K".to_string(), Side::Ask),
        ("P".to_string(), Side::Bid),
    ];
    assert_eq!(suppressed_names(&v), vec!["K:ask".to_string(), "P:bid".to_string()]);
}

#[test]
fn the_unwind_scan_is_off_unless_the_flag_is_given() {
    let off = run_cfg(default_args(), false, false, false, 0, None);
    assert!(off.unwind.is_none(), "the default must change nothing");

    let mut a = default_args();
    a.modes.unwind_detect_only = true;
    a.orders.rel_prefixes = vec!["xvus-nobel-peace-26".to_string()];
    let on = run_cfg(a, false, false, false, 0, None);
    let u = on.unwind.expect("the flag must reach the engine");
    assert_eq!(u.marks_path, default_args().files.marks, "and it reads the marks file");
    assert_eq!(u.owned_prefixes, ["xvus-nobel-peace-26"], "the scope must reach it too");

    let mut a = default_args();
    a.modes.unwind_detect_only = true;
    let bench = run_cfg(a, true, false, false, 0, None);
    assert!(bench.unwind.is_none(), "a digest replay must not acquire a scan");
}

#[test]
fn an_unarmed_run_books_nothing() {
    assert!(run_cfg(default_args(), false, false, true, 0, None).ledger_path.is_none());
    assert!(run_cfg(default_args(), false, true, true, 7, None).ledger_path.is_some());
    assert_eq!(run_cfg(default_args(), false, true, true, 7, None).hedges_undischarged, 7);
}

// --------------------------------------------------------------- arguments

#[test]
fn flags_are_read_in_any_order_and_the_last_one_counts() {
    let a = parse(&["--socket", "/run/a.sock", "--socket", "/run/b.sock", "--enable-orders"])
        .expect("well formed");
    assert_eq!(a.feed.socket.as_deref(), Some("/run/b.sock"));
    assert!(a.orders.enable_orders);
    assert!(!a.orders.confirm_live);
    let a = parse(&["--socket", "s", "--suppress", "P:bid", "--balance", "kalshi=320.43"])
        .expect("well formed");
    assert_eq!(a.orders.suppress, vec![("P".to_string(), Side::Bid)]);
    assert_eq!(a.orders.balances, vec![pair("kalshi", "320.43")]);
    let a = parse(&["--bench-tape", "tape", "--max-events", "12"]).expect("a count");
    assert_eq!(a.feed.max_events, 12);
}

#[test]
fn what_cannot_be_read_is_refused_where_it_stands() {
    assert_eq!(parse(&["--frobnicate"]).err(), Some(ArgError::Unknown { at: 0 }));
    assert!(matches!(parse(&["--registry"]).err(), Some(ArgError::NoValue { .. })));
    assert!(matches!(parse(&["--balance", "kalshi"]).err(), Some(ArgError::NoPair { .. })));
    assert!(matches!(parse(&["--suppress", "P:middle"]).err(), Some(ArgError::BadSide { .. })));
    assert!(matches!(parse(&["--max-events", "many"]).err(), Some(ArgError::NoNumber { .. })));
    let two = parse(&["--socket", "/run/a.sock", "--bench-tape", "tape"]);
    assert_eq!(two.err(), Some(ArgError::Sources), "a run has one source");
    assert_eq!(parse(&[]).err(), Some(ArgError::Sources), "and needs it");
    assert!(parse(&["--sweep-only"]).is_ok(), "but a sweep reads no feed");
}

#[test]
fn a_run_starts_from_the_source_it_was_given() {
    let tape = parse(&["--bench-tape", "tape"]).expect("well formed");
    assert_eq!(source(&tape), Source::Tape);
    assert!(is_bench(&tape));
    let live = parse(&["--socket", "/run/a.sock"]).expect("well formed");
    assert_eq!(source(&live), Source::Socket);
    assert!(!is_bench(&live));
    assert_eq!(source(&default_args()), Source::Nothing);
    assert_eq!(rate(true, true), Rate::Given);
    assert_eq!(rate(false, true), Rate::Unlimited);
    assert_eq!(rate(false, false), Rate::Eight);
}

#[test]
fn a_pass_starts_only_with_handles_and_pairs() {
    let mut a = default_args();
    assert_eq!(exit_start(&a, true, true, 1), ExitStart::Off);
    a.modes.maker_exit = true;
    assert_eq!(exit_start(&a, true, false, 1), ExitStart::NoHandles);
    assert_eq!(exit_start(&a, true, true, 0), ExitStart::NoPairs);
    assert_eq!(exit_start(&a, true, true, 1), ExitStart::Armed);
    let mut a = default_args();
    assert_eq!(recon_start(&a, true, true, 1), ReconStart::Off);
    a.modes.positions_recon_act = true;
    assert_eq!(recon_start(&a, true, true, 1), ReconStart::Ignored);
    a.modes.positions_recon = true;
    assert_eq!(recon_start(&a, false, true, 1), ReconStart::NoHandles);
    assert_eq!(recon_start(&a, true, true, 0), ReconStart::NoPairs);
    assert_eq!(recon_start(&a, true, true, 1), ReconStart::Armed);
    a.modes.positions_recon_act_shadow = true;
    assert_eq!(recon_start(&a, true, true, 1), ReconStart::Shadow);
    a.modes.positions_recon_act = false;
    a.modes.positions_recon_act_shadow = false;
    assert_eq!(recon_start(&a, true, true, 1), ReconStart::Detect);
}

// -------------------------------------------------------------- the snapshot

fn reading(pairs: &[(&str, &str)]) -> Vec<(String, String)> {
    pairs.iter().map(|p| (p.0.to_string(), p.1.to_string())).collect()
}

#[test]
fn the_snapshot_publishes_what_was_read_and_the_bound_it_is_read_against() {
    let read = reading(&[("kalshi", "320.4300"), ("polymarket_us", "329.29805")]);
    let body = publish_balances(1_784_646_659, 180, 77, 1_784_600_000, &read);
    let v: serde_json::Value = serde_json::from_str(&body).expect("json");
    assert_eq!(v["balances"]["kalshi"], "320.4300");
    assert_eq!(v["balances"]["polymarket_us"], "329.29805");
    assert_eq!(v["max_age_s"], 180, "a reader must not have to re-transcribe the bound");
    assert!(v["at"].as_u64().expect("at") > 1_700_000_000, "a wall clock, so it can be aged");
    assert_eq!(
        body,
        "{\"at\":1784646659,\"balances\":{\"kalshi\":\"320.4300\",\
         \"polymarket_us\":\"329.29805\"},\"max_age_s\":180,\"pid\":77,\
         \"started_at\":1784600000}\n"
    );
    assert_eq!(format!("{v}\n"), body, "as the document would be written again");
}

#[test]
fn a_snapshot_names_its_source_and_the_process_that_wrote_it() {
    let body = publish_balances(1_784_646_659, 180, 4242, 1_784_600_000, &reading(&[("kalshi", "1")]));
    let v: serde_json::Value = serde_json::from_str(&body).expect("json");
    assert_eq!(
        v["pid"].as_u64().expect("pid"),
        4242,
        "so a reader can ask whether that process is still alive"
    );
    assert!(
        v["started_at"].as_u64().expect("started_at") > 1_700_000_000,
        "and tell one run of it from the next"
    );
    let first = v["started_at"].as_u64().expect("started_at");
    let again = publish_balances(1_784_646_719, 180, 4242, first, &reading(&[("kalshi", "2")]));
    let v2: serde_json::Value = serde_json::from_str(&again).expect("json");
    assert_eq!(v2["started_at"].as_u64().expect("started_at"), first);
}

#[test]
fn the_last_figure_of_a_venue_is_the_one_that_is_published() {
    let read = reading(&[("pm\"us", "3"), ("kalshi", "1"), ("kalshi", "2")]);
    let body = publish_balances(1, 2, 3, 4, &read);
    let v: serde_json::Value = serde_json::from_str(&body).expect("json");
    assert_eq!(v["balances"]["kalshi"], "2");
    assert_eq!(v["balances"]["pm\"us"], "3", "a name is quoted");
    assert!(body.find("kalshi") < body.find("pm"), "in the order of the names: {body}");
}
