//! Which relationships are quoted, what is known of them, and what a run starts
//! from.
use crate::assoc::lookup;
use crate::gate::{
    count_gated, count_vetoed, leg_on, legs_on, meta_of, only_allowed, overruled, paired, quoting,
    stands_on, touching, tranche_name, RegLeg, RelMeta, Relationship,
};
use crate::ledger::{total_on, OpenLot};
use crate::policy::{bar_at, undated};
use crate::seeding::{
    census_name, lacking, largest_first, open_total, placed_in, rank_of, seed_class, unclassified,
    Placed, Seed, Undischarged,
};
use crate::text::listed;
use crate::venue::Venue;
use vstd::prelude::*;

verus! {

/// Whether places go up, none twice, and are below a bound.
pub open spec fn rising(at: Seq<int>, n: nat) -> bool {
    &&& forall|k: int| 0 <= k < at.len() ==> 0 <= #[trigger] at[k] < n
    &&& forall|k: int, l: int| 0 <= k < l < at.len() ==> #[trigger] at[k] < #[trigger] at[l]
}

/// Places that go up stay so with a later one behind them.
proof fn lemma_rising(at: Seq<int>, n: nat)
    requires
        n > 0,
        rising(at, (n - 1) as nat),
    ensures
        rising(at, n),
        rising(at.push(n - 1), n),
        !at.contains(n - 1),
        at.push(n - 1).contains(n - 1),
        forall|i: int| i != n - 1 ==> (#[trigger] at.push(n - 1).contains(i) <==> at.contains(i)),
{
    let more = at.push(n - 1);
    assert(more[at.len() as int] == n - 1);
    assert forall|i: int| i != n - 1 implies (#[trigger] more.contains(i) <==> at.contains(i)) by {
        if at.contains(i) {
            let k = choose|k: int| 0 <= k < at.len() && at[k] == i;
            assert(more[k] == i);
        }
        if more.contains(i) {
            let k = choose|k: int| 0 <= k < more.len() && more[k] == i;
            assert(at[k] == i);
        }
    }
}

/// A relationship is quoted exactly where it has two legs, both on venues that can
/// be traded on, is of a kind that can be quoted, carries no veto, was vetted by a
/// human or is on the allowlist, and starts with one of the prefixes, where there
/// are any. The quoted ones keep their order.
pub proof fn law_what_is_quoted(
    rels: Seq<Relationship>,
    allow: Seq<String>,
    prefixes: Seq<String>,
    n: nat,
)
    requires
        n <= rels.len(),
    ensures
        rising(quoting(rels, allow, prefixes, n), n),
        forall|i: int|
            0 <= i < n ==> (#[trigger] quoting(rels, allow, prefixes, n).contains(i) <==> {
                let r = rels[i];
                &&& r.legs@.len() == 2 && r.legs@[0].known && r.legs@[1].known
                &&& r.kind is Some && r.quotable
                &&& r.veto is None
                &&& r.human_vetted || listed(allow, r.id@)
                &&& prefixes.len() == 0 || exists|j: int|
                    0 <= j < prefixes.len() && (#[trigger] prefixes[j])@.is_prefix_of(r.id@)
            }),
    decreases n,
{
    if n > 0 {
        law_what_is_quoted(rels, allow, prefixes, (n - 1) as nat);
        let was = quoting(rels, allow, prefixes, (n - 1) as nat);
        lemma_rising(was, n);
        let r = rels[n - 1];
        assert forall|j: int| 0 <= j < prefixes.len() implies (#[trigger] prefixes[j])@.is_prefix_of(
            r.id@,
        ) == crate::text::opens(r.id@, prefixes[j]@) by {
            let p = prefixes[j]@;
            if p.len() <= r.id@.len() {
                assert(r.id@.take(p.len() as int) =~= r.id@.subrange(0, p.len() as int));
            }
        }
        if r.legs@.len() == 2 && r.legs@[0].known && r.legs@[1].known {
            assert(crate::gate::legs_known(r));
        }
    }
}

/// Of the relationships with two legs, those that may not be traded are the ones
/// that are vetoed or that nobody vouches for: what is counted out and what may be
/// traded make up all of them, and the vetoed ones are among what is counted out.
pub proof fn law_what_is_not_quoted_is_counted(
    rels: Seq<Relationship>,
    allow: Seq<String>,
    n: nat,
)
    requires
        n <= rels.len(),
    ensures
        0 <= count_vetoed(rels, n) <= count_gated(rels, allow, n) <= n,
        n > 0 ==> count_gated(rels, allow, n) - count_gated(rels, allow, (n - 1) as nat) == (if {
            let r = rels[n - 1];
            r.legs@.len() == 2 && (r.veto is Some || !(r.human_vetted || listed(allow, r.id@)))
        } {
            1int
        } else {
            0
        }),
        n > 0 ==> count_vetoed(rels, n) - count_vetoed(rels, (n - 1) as nat) == (if {
            let r = rels[n - 1];
            r.legs@.len() == 2 && r.veto is Some
        } {
            1int
        } else {
            0
        }),
    decreases n,
{
    if n > 0 {
        law_what_is_not_quoted_is_counted(rels, allow, (n - 1) as nat);
    }
}

/// A verdict overrules the allowlist on exactly the relationships of two legs that
/// are on it and vetoed.
pub proof fn law_what_a_verdict_overrules(rels: Seq<Relationship>, allow: Seq<String>, n: nat)
    requires
        n <= rels.len(),
    ensures
        rising(overruled(rels, allow, n), n),
        forall|i: int|
            0 <= i < n ==> (#[trigger] overruled(rels, allow, n).contains(i) <==> rels[i].legs@.len()
                == 2 && rels[i].veto is Some && listed(allow, rels[i].id@)),
    decreases n,
{
    if n > 0 {
        law_what_a_verdict_overrules(rels, allow, (n - 1) as nat);
        lemma_rising(overruled(rels, allow, (n - 1) as nat), n);
    }
}

/// What only the allowlist keeps is what no human has vetted under that name.
pub proof fn law_what_only_the_allowlist_keeps(
    rels: Seq<Relationship>,
    at: Seq<usize>,
    n: nat,
    k: int,
)
    requires
        n <= at.len(),
        0 <= k < n,
    ensures
        only_allowed(rels, at, n).contains(at[k] as int) <==> !exists|i: int|
            0 <= i < rels.len() && (#[trigger] rels[i]).human_vetted && rels[i].id@
                == rels[at[k] as int].id@,
    decreases n,
{
    let was = only_allowed(rels, at, (n - 1) as nat);
    let now = only_allowed(rels, at, n);
    let x = at[k] as int;
    if k < n - 1 {
        law_what_only_the_allowlist_keeps(rels, at, (n - 1) as nat, k);
        if was.contains(x) {
            let j = choose|j: int| 0 <= j < was.len() && was[j] == x;
            assert(now[j] == x);
        }
        if now.contains(x) {
            let j = choose|j: int| 0 <= j < now.len() && now[j] == x;
            if j < was.len() {
                assert(was[j] == x);
            }
        }
    } else {
        if !crate::gate::vetted_id(rels, rels[x].id@) {
            assert(now[now.len() - 1] == x);
        } else if now.contains(x) {
            lemma_only_unvetted(rels, at, n, x);
        }
    }
}

proof fn lemma_only_unvetted(rels: Seq<Relationship>, at: Seq<usize>, n: nat, x: int)
    requires
        n <= at.len(),
        only_allowed(rels, at, n).contains(x),
    ensures
        !crate::gate::vetted_id(rels, rels[x].id@),
    decreases n,
{
    let now = only_allowed(rels, at, n);
    let j = choose|j: int| 0 <= j < now.len() && now[j] == x;
    if n > 0 {
        let was = only_allowed(rels, at, (n - 1) as nat);
        if j < was.len() {
            assert(was[j] == x);
            lemma_only_unvetted(rels, at, (n - 1) as nat, x);
        }
    }
}

/// What is known of a name is what the last relationship of that name says: its
/// oracle risk, high where it says none, and its kind, unknown where it says none.
pub proof fn law_the_last_of_a_name_counts(
    rels: Seq<Relationship>,
    n: nat,
    id: Seq<char>,
    last: int,
)
    requires
        0 <= last < n <= rels.len(),
        rels[last].id@ == id,
        forall|i: int| last < i < n ==> (#[trigger] rels[i]).id@ != id,
    ensures
        meta_of(rels, n, id) == Some(
            (
                match rels[last].oracle_risk {
                    Some(t) => t@,
                    None => "high"@,
                },
                match rels[last].kind {
                    Some(t) => t@,
                    None => "unknown"@,
                },
            ),
        ),
    decreases n,
{
    if last < n - 1 {
        assert(rels[n - 1].id@ != id);
        law_the_last_of_a_name_counts(rels, (n - 1) as nat, id, last);
    }
}

/// Nothing is known of a name that the registry lacks.
pub proof fn law_an_unknown_name_has_no_metadata(rels: Seq<Relationship>, n: nat, id: Seq<char>)
    requires
        n <= rels.len(),
        forall|i: int| 0 <= i < n ==> (#[trigger] rels[i]).id@ != id,
    ensures
        meta_of(rels, n, id) is None,
    decreases n,
{
    if n > 0 {
        assert(rels[n - 1].id@ != id);
        law_an_unknown_name_has_no_metadata(rels, (n - 1) as nat, id);
    }
}

proof fn lemma_legs_on(legs: Seq<RegLeg>, venue: Seq<char>, market: Seq<char>, q: int, n: nat)
    requires
        n <= legs.len(),
    ensures
        forall|x: int| #[trigger] legs_on(legs, venue, market, q, n).contains(x) ==> x == q,
        legs_on(legs, venue, market, q, n).contains(q) <==> exists|i: int|
            0 <= i < n && (#[trigger] legs[i]).venue@ == venue && legs[i].market_id@ == market,
    decreases n,
{
    let now = legs_on(legs, venue, market, q, n);
    if n > 0 {
        lemma_legs_on(legs, venue, market, q, (n - 1) as nat);
        let was = legs_on(legs, venue, market, q, (n - 1) as nat);
        assert forall|x: int| #[trigger] now.contains(x) implies x == q by {
            let j = choose|j: int| 0 <= j < now.len() && now[j] == x;
            if j < was.len() {
                assert(was[j] == x);
                assert(was.contains(x));
            }
        }
        if was.contains(q) {
            let j = choose|j: int| 0 <= j < was.len() && was[j] == q;
            assert(now[j] == q);
        }
        if legs[n - 1].venue@ == venue && legs[n - 1].market_id@ == market {
            assert(now[now.len() - 1] == q);
        }
    }
}

/// An event on a market concerns exactly the quoters one of whose legs stands on
/// that market of that venue.
pub proof fn law_an_event_concerns_the_quoters_on_its_market(
    rels: Seq<Relationship>,
    at: Seq<usize>,
    venue: Seq<char>,
    market: Seq<char>,
    n: nat,
    q: int,
)
    requires
        n <= at.len(),
    ensures
        touching(rels, at, venue, market, n).contains(q) <==> 0 <= q < n && exists|i: int|
            0 <= i < rels[at[q] as int].legs@.len() && (#[trigger] rels[at[q] as int].legs@[i]).venue@
                == venue && rels[at[q] as int].legs@[i].market_id@ == market,
    decreases n,
{
    if n > 0 {
        law_an_event_concerns_the_quoters_on_its_market(
            rels,
            at,
            venue,
            market,
            (n - 1) as nat,
            q,
        );
        let legs = rels[at[n - 1] as int].legs@;
        lemma_legs_on(legs, venue, market, n - 1, legs.len());
        let was = touching(rels, at, venue, market, (n - 1) as nat);
        let more = legs_on(legs, venue, market, n - 1, legs.len());
        let now = touching(rels, at, venue, market, n);
        if was.contains(q) {
            let j = choose|j: int| 0 <= j < was.len() && was[j] == q;
            assert(now[j] == q);
        }
        if more.contains(q) {
            let j = choose|j: int| 0 <= j < more.len() && more[j] == q;
            assert(now[was.len() + j] == q);
        }
        if now.contains(q) {
            let j = choose|j: int| 0 <= j < now.len() && now[j] == q;
            if j < was.len() {
                assert(was[j] == q);
            } else {
                assert(more[j - was.len()] == q);
                assert(more.contains(q));
            }
        }
    }
}

/// A relationship stands on a venue where the first of its legs there does.
pub proof fn law_a_relationship_stands_where_its_first_leg_does(
    r: Relationship,
    venue: Venue,
    i: int,
)
    requires
        0 <= i < r.legs@.len(),
        r.legs@[i].venue@ == (match venue {
            Venue::Kalshi => "kalshi"@,
            Venue::PolymarketUs => "polymarket_us"@,
        }),
        forall|j: int| 0 <= j < i ==> (#[trigger] r.legs@[j]).venue@ != r.legs@[i].venue@,
    ensures
        stands_on(r, venue) == Some(r.legs@[i].market_id@),
{
    lemma_first_leg(r.legs@, venue.name(), i, r.legs@.len());
}

proof fn lemma_first_leg(legs: Seq<RegLeg>, venue: Seq<char>, i: int, n: nat)
    requires
        0 <= i < legs.len(),
        n <= legs.len(),
        legs[i].venue@ == venue,
        forall|j: int| 0 <= j < i ==> (#[trigger] legs[j]).venue@ != venue,
    ensures
        leg_on(legs, venue, n) == (if i < n {
            Some(legs[i].market_id@)
        } else {
            None
        }),
    decreases n,
{
    if n > 0 {
        lemma_first_leg(legs, venue, i, (n - 1) as nat);
    }
}

/// Every pair is of a relationship that stands on both venues, and says where.
pub proof fn law_a_pair_is_of_the_registry(rels: Seq<Relationship>, n: nat, k: int)
    requires
        n <= rels.len(),
        0 <= k < paired(rels, n).len(),
    ensures
        exists|i: int|
            0 <= i < n && (#[trigger] rels[i]).id@ == paired(rels, n)[k].0 && stands_on(
                rels[i],
                Venue::Kalshi,
            ) == Some(paired(rels, n)[k].1) && stands_on(rels[i], Venue::PolymarketUs) == Some(
                paired(rels, n)[k].2,
            ),
    decreases n,
{
    let was = paired(rels, (n - 1) as nat);
    let now = paired(rels, n);
    if k < was.len() {
        law_a_pair_is_of_the_registry(rels, (n - 1) as nat, k);
        assert(now[k] == was[k]);
    } else {
        assert(rels[n - 1].id@ == now[k].0);
    }
}

// ---------------------------------------------------------------- the hurdle

/// The hurdle rises by twelve points over the budget, in a straight line, from
/// four percent for an idle one to sixteen for a full one.
pub proof fn law_the_hurdle_rises_in_a_straight_line(a: int, b: int)
    requires
        0 <= a <= 1_000_000,
        0 <= b <= 1_000_000,
    ensures
        bar_at(b) - bar_at(a) == 12 * (b - a),
        bar_at(0) == 4_000_000,
        bar_at(1_000_000) == 16_000_000,
{
}

/// Where a hurdle is in force, the relationships on which it cannot be are those
/// without a date; where none is, there are none to name.
pub proof fn law_the_undated_escape_the_hurdle(bar: i64, dated: Seq<bool>, n: nat)
    requires
        n <= dated.len(),
    ensures
        rising(undated(bar, dated, n), n),
        forall|i: int|
            0 <= i < n ==> (#[trigger] undated(bar, dated, n).contains(i) <==> bar > 0 && !dated[i]),
    decreases n,
{
    if n > 0 {
        law_the_undated_escape_the_hurdle(bar, dated, (n - 1) as nat);
        lemma_rising(undated(bar, dated, (n - 1) as nat), n);
    }
}

// -------------------------------------------------------- what a run starts from

/// The hedges that lack contracts are those of which less was booked than owed.
pub proof fn law_a_hedge_lacks_what_was_not_booked(found: Seq<Undischarged>, n: nat)
    requires
        n <= found.len(),
    ensures
        rising(lacking(found, n), n),
        forall|i: int|
            0 <= i < n ==> (#[trigger] lacking(found, n).contains(i) <==> found[i].booked
                < found[i].owed),
        forall|i: int| 0 <= i < n ==> (#[trigger] found[i]).lacks() == found[i].owed - found[i].booked,
    decreases n,
{
    if n > 0 {
        law_a_hedge_lacks_what_was_not_booked(found, (n - 1) as nat);
        lemma_rising(lacking(found, (n - 1) as nat), n);
    }
}

proof fn lemma_rank(seeds: Seq<Seed>, places: Seq<int>, k: int)
    ensures
        0 <= rank_of(seeds, places, k) <= places.len(),
        forall|i: int|
            0 <= i < rank_of(seeds, places, k) ==> seeds[#[trigger] places[i]].qty >= seeds[k].qty,
        rank_of(seeds, places, k) < places.len() ==> seeds[places[rank_of(
            seeds,
            places,
            k,
        )]].qty < seeds[k].qty,
    decreases places.len(),
{
    if places.len() > 0 && !(seeds[places[0]].qty < seeds[k].qty) {
        lemma_rank(seeds, places.drop_first(), k);
        assert forall|i: int| 0 <= i < rank_of(seeds, places, k) implies seeds[#[trigger] places[i]].qty
            >= seeds[k].qty by {
            if i > 0 {
                assert(places[i] == places.drop_first()[i - 1]);
            }
        }
    }
}

/// The seeds are listed each once, and none before a larger one.
pub proof fn law_the_largest_seed_is_listed_first(seeds: Seq<Seed>, n: nat)
    requires
        n <= seeds.len(),
    ensures
        largest_first(seeds, n).len() == n,
        forall|i: int| 0 <= i < n ==> 0 <= #[trigger] largest_first(seeds, n)[i] < n,
        forall|x: int| 0 <= x < n ==> #[trigger] largest_first(seeds, n).contains(x),
        forall|i: int, j: int|
            0 <= i < j < n ==> seeds[#[trigger] largest_first(seeds, n)[i]].qty
                >= seeds[#[trigger] largest_first(seeds, n)[j]].qty,
    decreases n,
{
    if n > 0 {
        law_the_largest_seed_is_listed_first(seeds, (n - 1) as nat);
        let t = largest_first(seeds, (n - 1) as nat);
        lemma_rank(seeds, t, n - 1);
        let k = rank_of(seeds, t, n - 1);
        let r = largest_first(seeds, n);
        assert(r == t.insert(k, n - 1));
        assert forall|x: int| 0 <= x < n implies #[trigger] r.contains(x) by {
            if x < n - 1 {
                assert(t.contains(x));
                let j = choose|j: int| 0 <= j < t.len() && t[j] == x;
                if j < k {
                    assert(r[j] == x);
                } else {
                    assert(r[j + 1] == x);
                }
            } else {
                assert(r[k] == x);
            }
        }
        assert forall|i: int| 0 <= i < n implies 0 <= #[trigger] r[i] < n by {
            if i < k {
                assert(r[i] == t[i]);
            } else if i > k {
                assert(r[i] == t[i - 1]);
            }
        }
        assert forall|i: int, j: int| 0 <= i < j < n implies seeds[#[trigger] r[i]].qty
            >= seeds[#[trigger] r[j]].qty by {
            if j < k {
                assert(r[i] == t[i] && r[j] == t[j]);
            } else if j == k {
                assert(r[i] == t[i]);
            } else if i < k {
                assert(r[i] == t[i] && r[j] == t[j - 1]);
            } else if i == k {
                assert(r[j] == t[j - 1]);
                assert(seeds[t[k]].qty < seeds[n - 1].qty);
                if j - 1 > k {
                    assert(seeds[t[k]].qty >= seeds[t[j - 1]].qty);
                }
            } else {
                assert(r[i] == t[i - 1] && r[j] == t[j - 1]);
            }
        }
    }
}

/// The contracts in all are those of every relationship: one more adds its own.
pub proof fn law_a_total_is_of_every_basket(open: Seq<(String, i64)>, n: nat)
    requires
        0 < n <= open.len(),
    ensures
        open_total(open, n) - open_total(open, (n - 1) as nat) == open[n - 1].1,
        open_total(open, 0) == 0,
{
}

/// A lot counts for what the ledger expects on a market if one of its legs stands
/// there, on the venue that goes by that name.
pub proof fn law_a_lot_counts_on_the_venue_of_its_leg(
    lots: Seq<OpenLot>,
    venue: Venue,
    market: Seq<char>,
    n: nat,
)
    requires
        0 < n <= lots.len(),
    ensures
        ({
            let lot = lots[n - 1];
            let name = match venue {
                Venue::Kalshi => "kalshi"@,
                Venue::PolymarketUs => "polymarket_us"@,
            };
            total_on(lots, venue, market, n) - total_on(lots, venue, market, (n - 1) as nat) == (
            if exists|i: int|
                0 <= i < lot.legs@.len() && (#[trigger] lot.legs@[i]).venue@ == name
                    && lot.legs@[i].market_id@ == market {
                lot.qty as int
            } else {
                0
            })
        }),
        total_on(lots, venue, market, 0) == 0,
{
}

/// A basket is seeded under the class that the registry has for its name, and under
/// none that it knows where the registry lacks it; how many it lacks is counted.
pub proof fn law_a_basket_is_seeded_under_its_class(
    open: Seq<(String, i64)>,
    meta: Seq<(String, RelMeta)>,
    n: nat,
)
    requires
        0 < n <= open.len(),
    ensures
        lookup(meta, open[n - 1].0@) matches Some(x) ==> seed_class(meta, open[n - 1].0@)
            == x.class@,
        lookup(meta, open[n - 1].0@) is None ==> seed_class(meta, open[n - 1].0@) == "unknown"@,
        unclassified(open, meta, n) - unclassified(open, meta, (n - 1) as nat) == (if lookup(
            meta,
            open[n - 1].0@,
        ) is None {
            1int
        } else {
            0
        }),
        unclassified(open, meta, 0) == 0,
{
}

/// The relationship of a market is the last one of the registry that has a leg there
/// and is known by name.
pub proof fn law_a_market_belongs_to_the_last_relationship_on_it(
    rels: Seq<Relationship>,
    meta: Seq<(String, RelMeta)>,
    n: nat,
    market: Seq<char>,
    r: int,
    i: int,
)
    requires
        0 <= r < n <= rels.len(),
        0 <= i < rels[r].legs@.len(),
        rels[r].legs@[i].market_id@ == market,
        lookup(meta, rels[r].id@) is Some,
        forall|q: int, j: int|
            r < q < n && 0 <= j < rels[q].legs@.len() && lookup(meta, rels[q].id@) is Some
                ==> (#[trigger] rels[q].legs@[j]).market_id@ != market,
    ensures
        placed_in(rels, meta, n, 0, market) == Some(
            (rels[r].id@, lookup(meta, rels[r].id@)->0.class@),
        ),
    decreases n,
{
    let q = n - 1;
    let legs = rels[q].legs@;
    if r == q {
        lemma_placed_here(rels, meta, q as nat, legs.len(), market, i);
    } else {
        lemma_not_placed_here(rels, meta, q as nat, legs.len(), market);
        law_a_market_belongs_to_the_last_relationship_on_it(rels, meta, q as nat, market, r, i);
    }
}

proof fn lemma_placed_here(
    rels: Seq<Relationship>,
    meta: Seq<(String, RelMeta)>,
    n: nat,
    m: nat,
    market: Seq<char>,
    i: int,
)
    requires
        n < rels.len(),
        0 <= i < m <= rels[n as int].legs@.len(),
        rels[n as int].legs@[i].market_id@ == market,
        lookup(meta, rels[n as int].id@) is Some,
    ensures
        placed_in(rels, meta, n, m, market) == Some(
            (rels[n as int].id@, lookup(meta, rels[n as int].id@)->0.class@),
        ),
    decreases m,
{
    if rels[n as int].legs@[m - 1].market_id@ != market {
        lemma_placed_here(rels, meta, n, (m - 1) as nat, market, i);
    }
}

proof fn lemma_not_placed_here(
    rels: Seq<Relationship>,
    meta: Seq<(String, RelMeta)>,
    n: nat,
    m: nat,
    market: Seq<char>,
)
    requires
        n < rels.len(),
        m <= rels[n as int].legs@.len(),
        lookup(meta, rels[n as int].id@) is Some ==> forall|j: int|
            0 <= j < rels[n as int].legs@.len() ==> (#[trigger] rels[n as int].legs@[j]).market_id@
                != market,
    ensures
        placed_in(rels, meta, n, m, market) == placed_in(rels, meta, n, 0, market),
    decreases m,
{
    if m > 0 {
        lemma_not_placed_here(rels, meta, n, (m - 1) as nat, market);
    }
}

/// A hedge on a market that no relationship has goes by the market itself, under no
/// class that is known.
pub proof fn law_a_hedge_nobody_has_goes_by_its_market(
    class_of: Seq<(String, Placed)>,
    market: Seq<char>,
)
    ensures
        lookup(class_of, market) is None ==> census_name(class_of, market) == (
            "unknown:"@ + market,
            "unknown"@,
        ),
        lookup(class_of, market) matches Some(x) ==> census_name(class_of, market) == (
            x.rel_id@,
            x.class@,
        ),
{
}

/// A relationship is in the tranche that the registry names, and in the long tail
/// where it names none.
pub proof fn law_a_relationship_without_a_tranche_is_in_the_long_tail(r: Relationship)
    ensures
        r.tranche matches Some(t) ==> tranche_name(r) == t@,
        r.tranche is None ==> tranche_name(r) == "long-tail"@,
{
}

} // verus!
