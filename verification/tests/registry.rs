//! What may be quoted, and what is already open.
use arb_trader::gate::{
    allow_only, gate, gate_line, pairs_from_registry, quoters_of, rel_meta, veto_line, RegLeg,
    RelMeta, Relationship,
};
use arb_trader::seeding::{
    registry_class_of, seed_exposure_from_census, seed_exposure_from_ledger, sort_largest_first,
    takes_census, undischarged, Placed, Undischarged,
};

fn leg(venue: &str, market: &str) -> RegLeg {
    RegLeg { venue: venue.to_string(), known: true, market_id: market.to_string() }
}

fn rel(id: &str, n: u32, human: bool, veto: Option<&str>) -> Relationship {
    Relationship {
        id: id.to_string(),
        kind: Some("cross-venue-equivalent".to_string()),
        quotable: true,
        oracle_risk: None,
        tranche: None,
        legs: vec![leg("kalshi", &format!("K{n}")), leg("polymarket_us", &format!("P{n}"))],
        human_vetted: human,
        veto: veto.map(str::to_string),
    }
}

/// One entry for each outcome: vetted by a human, by an agent, rejected, and
/// some that the allowlist names.
fn registry() -> Vec<Relationship> {
    vec![
        rel("human-ok", 1, true, None),
        rel("agent-only", 2, false, None),
        rel("rejected-one", 3, true, Some("rejected")),
        rel("allowlisted", 4, false, None),
        rel("rejected-and-allowlisted", 5, false, Some("rejected")),
        rel("unknown-verdict-and-allowlisted", 6, false, Some("not-equivalent")),
    ]
}

fn names(v: &[&str]) -> Vec<String> {
    v.iter().map(|s| s.to_string()).collect()
}

fn ids(allow: &[&str], prefixes: &[&str]) -> Vec<String> {
    let rels = registry();
    gate(&rels, &names(allow), &names(prefixes))
        .quoting
        .iter()
        .map(|i| rels[*i].id.clone())
        .collect()
}

#[test]
fn only_human_vetted_or_allowlisted_relationships_quote() {
    assert_eq!(ids(&["allowlisted"], &[]), names(&["human-ok", "allowlisted"]));
}

#[test]
fn a_rejected_verdict_vetoes_an_allowlisted_relationship() {
    let allow = ["allowlisted", "rejected-and-allowlisted", "unknown-verdict-and-allowlisted"];
    assert_eq!(ids(&allow, &[]), names(&["human-ok", "allowlisted"]));
    let rels = registry();
    let g = gate(&rels, &names(&allow), &Vec::new());
    assert_eq!(g.overruled, vec![4, 5], "and each overruled name is said");
    assert_eq!(g.vetoed, 3);
}

#[test]
fn a_missing_allowlist_file_narrows_the_gate() {
    assert_eq!(ids(&[], &[]), names(&["human-ok"]), "only registry vetting survives");
}

#[test]
fn the_prefix_filter_cannot_widen_the_gate() {
    let got = ids(&[], &["agent"]);
    assert!(got.is_empty(), "a prefix must not bypass the vetting, got {got:?}");
}

#[test]
fn the_reconciliation_covers_the_whole_registry_not_the_quotable_subset() {
    let quotable = ids(&["allowlisted"], &[]);
    let pairs = pairs_from_registry(&registry());
    assert_eq!(pairs.len(), 6, "every relationship with both legs: {pairs:?}");
    assert!(pairs.len() > quotable.len(), "and strictly more than this run quotes");
    for id in ["rejected-one", "agent-only", "rejected-and-allowlisted"] {
        assert!(
            pairs.iter().any(|p| p.rel_id == id),
            "{id} cannot be quoted, and can still be naked"
        );
    }
    assert_eq!((pairs[0].kalshi.as_str(), pairs[0].pmus.as_str()), ("K1", "P1"));
}

#[test]
fn a_relationship_without_a_tranche_is_quoted_in_the_long_tail() {
    let mut rels = registry();
    rels[3].tranche = Some("head".to_string());
    let g = gate(&rels, &names(&["allowlisted"]), &Vec::new());
    assert_eq!(g.quoting, vec![0, 3]);
    assert_eq!(g.tranches, names(&["long-tail", "head"]), "one for each that quotes");
}

#[test]
fn quoters_are_found_by_either_of_their_markets() {
    let rels = registry();
    let all: Vec<usize> = (0..rels.len()).collect();
    assert_eq!(quoters_of(&rels, &all, "kalshi", "K4"), vec![3]);
    assert_eq!(quoters_of(&rels, &all, "polymarket_us", "P4"), vec![3]);
    assert!(quoters_of(&rels, &all, "kalshi", "P4").is_empty());
    assert_eq!(allow_only(&rels, &vec![0, 3]), vec![3], "vetted by a human, or only named");
}

#[test]
fn the_lines_of_the_admission_name_their_file() {
    let line = gate_line(6, 2, 1, 3, "tradable.yaml", 1);
    assert!(line.contains("tradable.yaml") && line.contains('6'), "{line}");
    let line = veto_line("rejected-one", "rejected", "tradable.yaml");
    assert!(line.contains("rejected-one") && line.contains("rejected"), "{line}");
}

// ------------------------------------------------------------- the exposure

const REL: &str = "xvus-fedcut-26-usfed-2026-cut";
const KMKT: &str = "KXRATECUT-26DEC31";
const CLASS: &str = "cross-venue-equivalent";

fn obligation(owed: i64, booked: i64) -> Undischarged {
    Undischarged { hedge_market: KMKT.to_string(), owed, booked }
}

fn class_of() -> Vec<(String, Placed)> {
    vec![(KMKT.to_string(), Placed { rel_id: REL.to_string(), class: CLASS.to_string() })]
}

fn seeded(found: &Vec<Undischarged>) -> Vec<(String, String, i128)> {
    seed_exposure_from_census(found, &class_of())
}

#[test]
fn an_undischarged_obligation_does_not_re_authorise_the_per_rel_cap() {
    let found = vec![obligation(148, 0)];
    assert_eq!(found[0].missing(), 148);
    assert_eq!(seeded(&found), vec![(REL.to_string(), CLASS.to_string(), 148)]);
    assert_eq!(undischarged(&found), 148);
}

#[test]
fn a_booked_obligation_is_seeded_by_the_ledger_and_not_again_here() {
    assert!(seeded(&vec![obligation(148, 148)]).is_empty(), "nothing may be counted twice");
    let part = seeded(&vec![obligation(148, 100)]);
    assert_eq!(part, vec![(REL.to_string(), CLASS.to_string(), 48)], "only the remainder");
}

#[test]
fn the_two_seeds_sum_to_the_truth_when_the_python_timer_completes_the_hedge() {
    let open = vec![(REL.to_string(), 148)];
    let meta = vec![(
        REL.to_string(),
        RelMeta { oracle_risk: "low".to_string(), class: CLASS.to_string() },
    )];
    let ledger = seed_exposure_from_ledger(&open, &meta);
    assert_eq!(ledger.total, 148);
    assert_eq!((ledger.seeds[0].rel_id.as_str(), ledger.seeds[0].class.as_str()), (REL, CLASS));
    let census: i128 = seeded(&vec![obligation(148, 148)]).iter().map(|s| s.2).sum();
    assert_eq!(ledger.total + census, 148, "148 contracts exist, and not 296");
}

#[test]
fn two_snapshots_lose_the_basket_that_lands_between_them() {
    // The ledger was read before the basket landed, the census after.
    let before = seed_exposure_from_ledger(&Vec::new(), &Vec::new()).total;
    let after: i128 = seeded(&vec![obligation(148, 148)]).iter().map(|s| s.2).sum();
    assert_eq!(before + after, 0, "neither carries the contracts");
    // One snapshot, both seeds, on either side of the basket.
    for (open, booked) in [(0, 0), (148, 148)] {
        let ledger = seed_exposure_from_ledger(&vec![(REL.to_string(), open)], &Vec::new()).total;
        let census: i128 = seeded(&vec![obligation(148, booked)]).iter().map(|s| s.2).sum();
        assert_eq!(ledger + census, 148, "the contracts are real either way");
    }
}

#[test]
fn an_obligation_outside_this_run_still_counts_toward_the_global_cap() {
    let seeds = seed_exposure_from_census(&vec![obligation(450, 0)], &Vec::new());
    assert_eq!(seeds[0].0, format!("unknown:{KMKT}"));
    assert_eq!(seeds[0].1, "unknown");
    assert_eq!(seeds[0].2, 450);
}

#[test]
fn a_market_is_classed_by_the_relationship_it_belongs_to() {
    let rels = registry();
    let meta = rel_meta(&rels);
    let placed = registry_class_of(&rels, &meta);
    let of = |m: &str| {
        placed.iter().find(|p| p.0 == m).map(|p| (p.1.rel_id.as_str(), p.1.class.as_str()))
    };
    assert_eq!(of("K1"), Some(("human-ok", CLASS)));
    assert_eq!(of("P4"), Some(("allowlisted", CLASS)));
    assert_eq!(of("K9"), None);
}

#[test]
fn the_largest_seeds_come_first() {
    let open = vec![("a".to_string(), 1), ("b".to_string(), 9), ("c".to_string(), 4)];
    let s = seed_exposure_from_ledger(&open, &Vec::new());
    assert_eq!(sort_largest_first(&s.seeds), vec![1, 2, 0]);
    assert_eq!(s.unknown, 3, "nothing here has metadata");
    assert_eq!(s.seeds[0].class, "unknown");
}

#[test]
fn a_census_needs_an_armed_run_with_an_intent_log_and_a_ledger() {
    assert!(takes_census(false, true, true, true));
    assert!(!takes_census(true, true, true, true));
    assert!(!takes_census(false, false, true, true));
    assert!(!takes_census(false, true, false, true));
    assert!(!takes_census(false, true, true, false));
}
