//! The exposure that a run starts from: what the ledger has open, and the hedges
//! that an earlier run owed and never booked.
use crate::assoc::{find, lookup, put};
use crate::gate::{meta_at, RelMeta, Relationship};
use vstd::prelude::*;
use vstd::string::StringExecFns;

verus! {

/// Exposure to record: a relationship, its class and contracts, in millionths.
#[derive(Debug)]
pub struct Seed {
    pub rel_id: String,
    pub class: String,
    pub qty: i64,
}

/// The class of a relationship; one that the registry lacks counts toward the
/// whole, and toward no class of its own.
pub open spec fn seed_class(meta: Seq<(String, RelMeta)>, rel_id: Seq<char>) -> Seq<char> {
    match meta_at(meta, rel_id) {
        Some((_, class)) => class,
        None => "unknown"@,
    }
}

/// How many of the first `n` relationships the registry lacks.
pub open spec fn unclassified(
    open: Seq<(String, i64)>,
    meta: Seq<(String, RelMeta)>,
    n: nat,
) -> int
    decreases n,
{
    if n == 0 {
        0
    } else {
        unclassified(open, meta, (n - 1) as nat) + (if meta_at(meta, open[n - 1].0@) is None {
            1int
        } else {
            0
        })
    }
}

/// The contracts of the first `n` relationships.
pub open spec fn open_total(open: Seq<(String, i64)>, n: nat) -> int
    decreases n,
{
    if n == 0 {
        0
    } else {
        open_total(open, (n - 1) as nat) + open[n - 1].1
    }
}

/// What the ledger seeds.
#[derive(Debug)]
pub struct Seeded {
    pub seeds: Vec<Seed>,
    /// Relationships that the registry lacks.
    pub unknown: u64,
    /// Contracts in all, in millionths.
    pub total: i128,
}

/// Seeds exposure from the baskets that the ledger has open, each under the
/// class of its relationship.
pub fn seed_exposure_from_ledger(open: &Vec<(String, i64)>, meta: &Vec<(String, RelMeta)>) -> (r:
    Seeded)
    requires
        open@.len() <= 0xffff_ffff,
    ensures
        r.seeds@.len() == open@.len(),
        forall|i: int|
            0 <= i < open@.len() ==> {
                &&& (#[trigger] r.seeds@[i]).rel_id@ == open@[i].0@
                &&& r.seeds@[i].qty == open@[i].1
                &&& r.seeds@[i].class@ == seed_class(meta@, open@[i].0@)
            },
        r.unknown == unclassified(open@, meta@, open@.len()),
        r.total == open_total(open@, open@.len()),
{
    let mut seeds: Vec<Seed> = Vec::new();
    let mut unknown: u64 = 0;
    let mut total: i128 = 0;
    let mut i: usize = 0;
    while i < open.len()
        invariant
            i <= open.len(),
            open@.len() <= 0xffff_ffff,
            seeds@.len() == i,
            unknown <= i,
            -0x8000_0000_0000_0000 * i <= total <= 0x7fff_ffff_ffff_ffff * i,
            forall|k: int|
                0 <= k < i ==> {
                    &&& (#[trigger] seeds@[k]).rel_id@ == open@[k].0@
                    &&& seeds@[k].qty == open@[k].1
                    &&& seeds@[k].class@ == seed_class(meta@, open@[k].0@)
                },
            unknown == unclassified(open@, meta@, i as nat),
            total == open_total(open@, i as nat),
        decreases open.len() - i,
    {
        let class: String = match find(meta, open[i].0.as_str()) {
            Some(m) => m.class.clone(),
            None => {
                unknown = unknown + 1;
                "unknown".to_owned()
            },
        };
        seeds.push(Seed { rel_id: open[i].0.clone(), class, qty: open[i].1 });
        total = total + open[i].1 as i128;
        i = i + 1;
    }
    Seeded { seeds, unknown, total }
}

/// The places of the seeds among the first `n` as they are listed, the largest
/// first; of equal ones the earlier.
pub open spec fn largest_first(seeds: Seq<Seed>, n: nat) -> Seq<int>
    decreases n,
{
    if n == 0 {
        Seq::empty()
    } else {
        let t = largest_first(seeds, (n - 1) as nat);
        t.insert(rank_of(seeds, t, n - 1), n - 1)
    }
}

/// Where a seed goes among places in order: before the first smaller one.
pub open spec fn rank_of(seeds: Seq<Seed>, places: Seq<int>, k: int) -> int
    decreases places.len(),
{
    if places.len() == 0 || seeds[places[0]].qty < seeds[k].qty {
        0
    } else {
        1 + rank_of(seeds, places.drop_first(), k)
    }
}

proof fn lemma_rank_of(seeds: Seq<Seed>, places: Seq<int>, k: int, at: int)
    requires
        0 <= at <= places.len(),
        forall|i: int| 0 <= i < at ==> seeds[#[trigger] places[i]].qty >= seeds[k].qty,
        at < places.len() ==> seeds[places[at]].qty < seeds[k].qty,
    ensures
        rank_of(seeds, places, k) == at,
    decreases places.len(),
{
    if at > 0 {
        assert(seeds[places[0]].qty >= seeds[k].qty);
        assert forall|i: int| 0 <= i < at - 1 implies seeds[#[trigger] places.drop_first()[i]].qty
            >= seeds[k].qty by {
            assert(places.drop_first()[i] == places[i + 1]);
        }
        lemma_rank_of(seeds, places.drop_first(), k, at - 1);
    }
}

/// The seeds in the order in which they are listed.
pub fn sort_largest_first(seeds: &Vec<Seed>) -> (r: Vec<usize>)
    ensures
        crate::gate::ints(r@) == largest_first(seeds@, seeds@.len()),
        forall|i: int| 0 <= i < r@.len() ==> (#[trigger] r@[i]) < seeds@.len(),
{
    let mut out: Vec<usize> = Vec::new();
    let mut n: usize = 0;
    assert(crate::gate::ints(out@) =~= largest_first(seeds@, 0));
    while n < seeds.len()
        invariant
            n <= seeds.len(),
            crate::gate::ints(out@) == largest_first(seeds@, n as nat),
            forall|i: int| 0 <= i < out@.len() ==> (#[trigger] out@[i]) < n,
        decreases seeds.len() - n,
    {
        let ghost places = crate::gate::ints(out@);
        let ghost was = out@;
        let mut k: usize = 0;
        while k < out.len() && seeds[out[k]].qty >= seeds[n].qty
            invariant
                k <= out.len(),
                n < seeds.len(),
                out@ == was,
                places == crate::gate::ints(out@),
                forall|i: int| 0 <= i < out@.len() ==> (#[trigger] out@[i]) < n,
                forall|i: int|
                    0 <= i < k ==> seeds@[#[trigger] places[i]].qty >= seeds@[n as int].qty,
            decreases out.len() - k,
        {
            assert(places[k as int] == out@[k as int]);
            k = k + 1;
        }
        proof {
            if k < out.len() {
                assert(places[k as int] == out@[k as int]);
            }
            lemma_rank_of(seeds@, places, n as int, k as int);
        }
        out.insert(k, n);
        assert(crate::gate::ints(out@) =~= places.insert(k as int, n as int));
        n = n + 1;
    }
    out
}

// ------------------------------------------------------------------ census

/// A hedge that an earlier run owed, and how much of it was booked.
#[derive(Debug)]
pub struct Undischarged {
    pub hedge_market: String,
    pub owed: i64,
    pub booked: i64,
}

impl Undischarged {
    pub open spec fn lacks(self) -> int {
        self.owed - self.booked
    }

    /// The contracts that are missing.
    pub fn missing(&self) -> (r: i128)
        ensures
            r == self.lacks(),
    {
        self.owed as i128 - self.booked as i128
    }
}

/// A relationship and its class, for each of its markets.
#[derive(Debug)]
pub struct Placed {
    pub rel_id: String,
    pub class: String,
}

/// What the first `n` relationships, and the first `m` legs of the next one, say
/// of a market; the last of them counts, and one without metadata does not.
pub open spec fn placed_in(
    rels: Seq<Relationship>,
    meta: Seq<(String, RelMeta)>,
    n: nat,
    m: nat,
    market: Seq<char>,
) -> Option<(Seq<char>, Seq<char>)>
    decreases n, m,
{
    if m > 0 {
        if rels[n as int].legs@[m - 1].market_id@ == market && meta_at(meta, rels[n as int].id@)
            is Some {
            Some((rels[n as int].id@, seed_class(meta, rels[n as int].id@)))
        } else {
            placed_in(rels, meta, n, (m - 1) as nat, market)
        }
    } else if n > 0 {
        placed_in(rels, meta, (n - 1) as nat, rels[n - 1].legs@.len(), market)
    } else {
        None
    }
}

pub open spec fn placed_at(m: Seq<(String, Placed)>, market: Seq<char>) -> Option<
    (Seq<char>, Seq<char>),
> {
    match lookup(m, market) {
        Some(x) => Some((x.rel_id@, x.class@)),
        None => None,
    }
}

/// The relationship and class of each market of the whole registry, whether it
/// is quoted or not.
pub fn registry_class_of(rels: &Vec<Relationship>, meta: &Vec<(String, RelMeta)>) -> (r: Vec<
    (String, Placed),
>)
    ensures
        forall|market: Seq<char>| #[trigger]
            placed_at(r@, market) == placed_in(rels@, meta@, rels@.len(), 0, market),
{
    let mut out: Vec<(String, Placed)> = Vec::new();
    let mut n: usize = 0;
    while n < rels.len()
        invariant
            n <= rels.len(),
            forall|market: Seq<char>| #[trigger]
                placed_at(out@, market) == placed_in(rels@, meta@, n as nat, 0, market),
        decreases rels.len() - n,
    {
        let r: &Relationship = &rels[n];
        let class: Option<&RelMeta> = find(meta, r.id.as_str());
        let mut m: usize = 0;
        while m < r.legs.len()
            invariant
                m <= r.legs.len(),
                n < rels.len(),
                *r == rels@[n as int],
                match class {
                    Some(c) => lookup(meta@, r.id@) == Some(*c),
                    None => lookup(meta@, r.id@) is None,
                },
                forall|market: Seq<char>| #[trigger]
                    placed_at(out@, market) == placed_in(rels@, meta@, n as nat, m as nat, market),
            decreases r.legs.len() - m,
        {
            let ghost was = out@;
            if let Some(c) = class {
                put(
                    &mut out,
                    r.legs[m].market_id.as_str(),
                    Placed { rel_id: r.id.clone(), class: c.class.clone() },
                );
            }
            proof {
                assert forall|market: Seq<char>| #[trigger] placed_at(out@, market) == placed_in(
                    rels@,
                    meta@,
                    n as nat,
                    (m + 1) as nat,
                    market,
                ) by {
                    assert(placed_at(was, market) == placed_in(
                        rels@,
                        meta@,
                        n as nat,
                        m as nat,
                        market,
                    ));
                }
            }
            m = m + 1;
        }
        proof {
            assert forall|market: Seq<char>| #[trigger] placed_at(out@, market) == placed_in(
                rels@,
                meta@,
                (n + 1) as nat,
                0,
                market,
            ) by {
                assert(placed_at(out@, market) == placed_in(
                    rels@,
                    meta@,
                    n as nat,
                    r.legs@.len(),
                    market,
                ));
            }
        }
        n = n + 1;
    }
    out
}

/// What an undischarged hedge is recorded under: its relationship and class, or
/// its market where the registry no longer has it.
pub open spec fn census_name(class_of: Seq<(String, Placed)>, market: Seq<char>) -> (
    Seq<char>,
    Seq<char>,
) {
    match placed_at(class_of, market) {
        Some(x) => x,
        None => ("unknown:"@ + market, "unknown"@),
    }
}

/// The places of the first `n` hedges that lack contracts.
pub open spec fn lacking(found: Seq<Undischarged>, n: nat) -> Seq<int>
    decreases n,
{
    if n == 0 {
        Seq::empty()
    } else {
        let rest = lacking(found, (n - 1) as nat);
        if found[n - 1].lacks() > 0 {
            rest.push(n - 1)
        } else {
            rest
        }
    }
}

/// Seeds exposure from the hedges that were owed and never booked: exactly what
/// the ledger does not have.
pub fn seed_exposure_from_census(
    found: &Vec<Undischarged>,
    class_of: &Vec<(String, Placed)>,
) -> (r: Vec<(String, String, i128)>)
    ensures
        ({
            let at = lacking(found@, found@.len());
            &&& r@.len() == at.len()
            &&& forall|k: int|
                0 <= k < at.len() ==> {
                    let u = found@[at[k]];
                    &&& ((#[trigger] r@[k]).0@, r@[k].1@) == census_name(
                        class_of@,
                        u.hedge_market@,
                    )
                    &&& r@[k].2 == u.lacks()
                }
        }),
{
    let mut out: Vec<(String, String, i128)> = Vec::new();
    let mut i: usize = 0;
    while i < found.len()
        invariant
            i <= found.len(),
            out@.len() == lacking(found@, i as nat).len(),
            forall|k: int|
                0 <= k < out@.len() ==> {
                    let u = found@[lacking(found@, i as nat)[k]];
                    &&& ((#[trigger] out@[k]).0@, out@[k].1@) == census_name(
                        class_of@,
                        u.hedge_market@,
                    )
                    &&& out@[k].2 == u.lacks()
                },
        decreases found.len() - i,
    {
        let u: &Undischarged = &found[i];
        let ghost was = out@;
        let ghost at = lacking(found@, i as nat);
        let qty: i128 = u.missing();
        if qty > 0 {
            let (rel_id, class): (String, String) = match find(
                class_of,
                u.hedge_market.as_str(),
            ) {
                Some(p) => (p.rel_id.clone(), p.class.clone()),
                None => {
                    let mut s: String = "unknown:".to_owned();
                    s.append(u.hedge_market.as_str());
                    (s, "unknown".to_owned())
                },
            };
            out.push((rel_id, class, qty));
        }
        proof {
            let next = lacking(found@, (i + 1) as nat);
            assert forall|k: int| 0 <= k < out@.len() implies ({
                let u = found@[next[k]];
                &&& ((#[trigger] out@[k]).0@, out@[k].1@) == census_name(class_of@, u.hedge_market@)
                &&& out@[k].2 == u.lacks()
            }) by {
                if k < was.len() {
                    assert(out@[k] == was[k]);
                    assert(next[k] == at[k]);
                }
            }
        }
        i = i + 1;
    }
    out
}

/// Whether the census is taken: on an armed run that keeps its own stream and
/// could read the ledger.
pub fn takes_census(bench: bool, armed: bool, has_out: bool, ledger_read: bool) -> (r: bool)
    ensures
        r == (!bench && armed && has_out && ledger_read),
{
    !bench && armed && has_out && ledger_read
}

/// The contracts of all undischarged hedges, for the gauge.
pub open spec fn undischarged_total(found: Seq<Undischarged>, n: nat) -> int
    decreases n,
{
    if n == 0 {
        0
    } else {
        undischarged_total(found, (n - 1) as nat) + found[n - 1].lacks()
    }
}

/// The contracts of all undischarged hedges.
pub fn undischarged(found: &Vec<Undischarged>) -> (r: u64)
    requires
        forall|i: int| 0 <= i < found@.len() ==> 0 <= (#[trigger] found@[i]).lacks() <= i64::MAX,
        undischarged_total(found@, found@.len()) <= u64::MAX,
    ensures
        r == undischarged_total(found@, found@.len()),
{
    let mut sum: u64 = 0;
    let mut i: usize = 0;
    while i < found.len()
        invariant
            i <= found.len(),
            forall|i: int|
                0 <= i < found@.len() ==> 0 <= (#[trigger] found@[i]).lacks() <= i64::MAX,
            undischarged_total(found@, found@.len()) <= u64::MAX,
            sum == undischarged_total(found@, i as nat),
        decreases found.len() - i,
    {
        proof {
            lemma_total_grows(found@, (i + 1) as nat, found@.len());
        }
        sum = sum + found[i].missing() as u64;
        i = i + 1;
    }
    sum
}

proof fn lemma_total_grows(found: Seq<Undischarged>, n: nat, m: nat)
    requires
        n <= m <= found.len(),
        forall|i: int| 0 <= i < found.len() ==> 0 <= (#[trigger] found[i]).lacks(),
    ensures
        undischarged_total(found, n) <= undischarged_total(found, m),
    decreases m,
{
    if n < m {
        lemma_total_grows(found, n, (m - 1) as nat);
    }
}

// --------------------------------------------------------------------- laws

/// The two seeds make up what is owed: of a hedge in part booked, the ledger
/// seeds what it has and the census the rest, so that nothing counts twice and
/// nothing is missed.
pub proof fn law_the_two_seeds_make_up_what_is_owed(u: Undischarged)
    ensures
        u.booked + u.lacks() == u.owed,
        u.booked == u.owed ==> lacking(seq![u], 1).len() == 0,
{
    reveal_with_fuel(lacking, 2);
}

} // verus!
