//! Which relationships a run quotes: human-vetted or allowlisted ones, never a
//! vetoed one, and which of them an event on a market concerns.
use crate::assoc::{lookup, put};
use crate::text::{is_listed, listed, number, numeral, opens, same, starts_with};
use crate::venue::Venue;
use vstd::prelude::*;
use vstd::string::StringExecFns;

verus! {

/// A leg of a relationship.
#[derive(Debug)]
pub struct RegLeg {
    pub venue: String,
    /// Whether the venue is one that can be traded on.
    pub known: bool,
    pub market_id: String,
}

/// A relationship as the registry has it.
#[derive(Debug)]
pub struct Relationship {
    pub id: String,
    pub kind: Option<String>,
    /// Whether the kind is one that can be quoted.
    pub quotable: bool,
    pub oracle_risk: Option<String>,
    pub tranche: Option<String>,
    pub legs: Vec<RegLeg>,
    /// Whether a human has vetted it.
    pub human_vetted: bool,
    /// The verdict that vetoes it, if one does.
    pub veto: Option<String>,
}

/// Whether a relationship may be traded: vetted by a human or on the allowlist,
/// and not vetoed.
pub open spec fn tradable_rel(r: Relationship, allow: Seq<String>) -> bool {
    r.veto is None && (r.human_vetted || listed(allow, r.id@))
}

/// Whether a relationship is in scope: its name starts with one of the prefixes,
/// where there are any.
pub open spec fn in_scope(r: Relationship, prefixes: Seq<String>) -> bool {
    prefixes.len() == 0 || exists|i: int|
        0 <= i < prefixes.len() && opens(r.id@, (#[trigger] prefixes[i])@)
}

/// Whether every leg stands on a venue that can be traded on.
pub open spec fn legs_known(r: Relationship) -> bool {
    forall|i: int| 0 <= i < r.legs@.len() ==> (#[trigger] r.legs@[i]).known
}

/// Whether a relationship is quoted.
pub open spec fn quoted_rel(
    r: Relationship,
    allow: Seq<String>,
    prefixes: Seq<String>,
) -> bool {
    &&& r.legs@.len() == 2
    &&& tradable_rel(r, allow)
    &&& in_scope(r, prefixes)
    &&& r.kind is Some && r.quotable
    &&& legs_known(r)
}

/// The places of the quoted relationships among the first `n`.
pub open spec fn quoting(
    rels: Seq<Relationship>,
    allow: Seq<String>,
    prefixes: Seq<String>,
    n: nat,
) -> Seq<int>
    decreases n,
{
    if n == 0 {
        Seq::empty()
    } else {
        let rest = quoting(rels, allow, prefixes, (n - 1) as nat);
        if quoted_rel(rels[n - 1], allow, prefixes) {
            rest.push(n - 1)
        } else {
            rest
        }
    }
}

/// How many of the first `n` relationships of two legs a verdict vetoes.
pub open spec fn count_vetoed(rels: Seq<Relationship>, n: nat) -> int
    decreases n,
{
    if n == 0 {
        0
    } else {
        count_vetoed(rels, (n - 1) as nat) + (if rels[n - 1].legs@.len() == 2 && rels[n - 1].veto
            is Some {
            1int
        } else {
            0
        })
    }
}

/// How many of the first `n` relationships of two legs may not be traded.
pub open spec fn count_gated(rels: Seq<Relationship>, allow: Seq<String>, n: nat) -> int
    decreases n,
{
    if n == 0 {
        0
    } else {
        count_gated(rels, allow, (n - 1) as nat) + (if rels[n - 1].legs@.len() == 2
            && !tradable_rel(rels[n - 1], allow) {
            1int
        } else {
            0
        })
    }
}

/// Those of the first `n` relationships that are on the allowlist and vetoed all
/// the same.
pub open spec fn overruled(rels: Seq<Relationship>, allow: Seq<String>, n: nat) -> Seq<int>
    decreases n,
{
    if n == 0 {
        Seq::empty()
    } else {
        let rest = overruled(rels, allow, (n - 1) as nat);
        if rels[n - 1].legs@.len() == 2 && rels[n - 1].veto is Some && listed(
            allow,
            rels[n - 1].id@,
        ) {
            rest.push(n - 1)
        } else {
            rest
        }
    }
}

/// The tranche of a relationship: the long tail where the registry names none.
pub open spec fn tranche_name(r: Relationship) -> Seq<char> {
    match r.tranche {
        Some(t) => t@,
        None => "long-tail"@,
    }
}

/// The tranche of a relationship.
pub fn tranche_of(r: &Relationship) -> (t: String)
    ensures
        t@ == tranche_name(*r),
{
    match &r.tranche {
        Some(t) => t.clone(),
        None => "long-tail".to_owned(),
    }
}

/// What came of the admission.
#[derive(Debug)]
pub struct Gate {
    /// The places of the relationships that are quoted.
    pub quoting: Vec<usize>,
    /// The tranche of each of them.
    pub tranches: Vec<String>,
    pub gated: u64,
    pub vetoed: u64,
    /// The places of those whose entry on the allowlist a verdict overrules.
    pub overruled: Vec<usize>,
}

pub open spec fn ints(v: Seq<usize>) -> Seq<int> {
    Seq::new(v.len(), |i: int| v[i] as int)
}

fn is_in_scope(r: &Relationship, prefixes: &Vec<String>) -> (b: bool)
    ensures
        b == in_scope(*r, prefixes@),
{
    if prefixes.len() == 0 {
        return true;
    }
    let mut i: usize = 0;
    while i < prefixes.len()
        invariant
            i <= prefixes.len(),
            forall|k: int| 0 <= k < i ==> !opens(r.id@, (#[trigger] prefixes@[k])@),
        decreases prefixes.len() - i,
    {
        if starts_with(r.id.as_str(), prefixes[i].as_str()) {
            return true;
        }
        i = i + 1;
    }
    false
}

fn are_legs_known(r: &Relationship) -> (b: bool)
    ensures
        b == legs_known(*r),
{
    let mut i: usize = 0;
    while i < r.legs.len()
        invariant
            i <= r.legs.len(),
            forall|k: int| 0 <= k < i ==> (#[trigger] r.legs@[k]).known,
        decreases r.legs.len() - i,
    {
        if !r.legs[i].known {
            return false;
        }
        i = i + 1;
    }
    true
}

/// Decides which relationships are quoted.
pub fn gate(rels: &Vec<Relationship>, allow: &Vec<String>, prefixes: &Vec<String>) -> (r: Gate)
    ensures
        ints(r.quoting@) == quoting(rels@, allow@, prefixes@, rels@.len()),
        r.tranches@.len() == r.quoting@.len(),
        forall|i: int|
            0 <= i < r.quoting@.len() ==> (#[trigger] r.tranches@[i])@ == tranche_name(
                rels@[r.quoting@[i] as int],
            ),
        r.gated == count_gated(rels@, allow@, rels@.len()),
        r.vetoed == count_vetoed(rels@, rels@.len()),
        ints(r.overruled@) == overruled(rels@, allow@, rels@.len()),
{
    let mut q: Vec<usize> = Vec::new();
    let mut tranches: Vec<String> = Vec::new();
    let mut over: Vec<usize> = Vec::new();
    let mut gated: u64 = 0;
    let mut vetoed: u64 = 0;
    let mut i: usize = 0;
    assert(ints(q@) =~= quoting(rels@, allow@, prefixes@, 0));
    assert(ints(over@) =~= overruled(rels@, allow@, 0));
    while i < rels.len()
        invariant
            i <= rels.len(),
            gated <= i,
            vetoed <= i,
            ints(q@) == quoting(rels@, allow@, prefixes@, i as nat),
            tranches@.len() == q@.len(),
            forall|k: int|
                0 <= k < q@.len() ==> (#[trigger] tranches@[k])@ == tranche_name(
                    rels@[q@[k] as int],
                ),
            gated == count_gated(rels@, allow@, i as nat),
            vetoed == count_vetoed(rels@, i as nat),
            ints(over@) == overruled(rels@, allow@, i as nat),
        decreases rels.len() - i,
    {
        let r: &Relationship = &rels[i];
        let ghost (q0, over0) = (q@, over@);
        if r.legs.len() == 2 {
            let on_list: bool = is_listed(allow, r.id.as_str());
            if r.veto.is_some() {
                vetoed = vetoed + 1;
                if on_list {
                    over.push(i);
                    assert(ints(over@) =~= ints(over0).push(i as int));
                }
            }
            let ok: bool = r.veto.is_none() && (r.human_vetted || on_list);
            if !ok {
                gated = gated + 1;
            } else if is_in_scope(r, prefixes) && r.kind.is_some() && r.quotable && are_legs_known(
                r,
            ) {
                q.push(i);
                tranches.push(tranche_of(r));
                assert(ints(q@) =~= ints(q0).push(i as int));
            }
        }
        i = i + 1;
    }
    Gate { quoting: q, tranches, gated, vetoed, overruled: over }
}

/// The places, among those that are quoted, of what only the allowlist keeps:
/// deleting their line stops them.
pub open spec fn only_allowed(rels: Seq<Relationship>, at: Seq<usize>, n: nat) -> Seq<int>
    decreases n,
{
    if n == 0 {
        Seq::empty()
    } else {
        let rest = only_allowed(rels, at, (n - 1) as nat);
        if !vetted_id(rels, rels[at[n - 1] as int].id@) {
            rest.push(at[n - 1] as int)
        } else {
            rest
        }
    }
}

/// Whether a human has vetted a relationship of this name.
pub open spec fn vetted_id(rels: Seq<Relationship>, id: Seq<char>) -> bool {
    exists|i: int|
        0 <= i < rels.len() && (#[trigger] rels[i]).human_vetted && rels[i].id@ == id
}

fn is_vetted_id(rels: &Vec<Relationship>, id: &str) -> (r: bool)
    ensures
        r == vetted_id(rels@, id@),
{
    let mut i: usize = 0;
    while i < rels.len()
        invariant
            i <= rels.len(),
            forall|k: int|
                0 <= k < i ==> !((#[trigger] rels@[k]).human_vetted && rels@[k].id@ == id@),
        decreases rels.len() - i,
    {
        if rels[i].human_vetted && same(rels[i].id.as_str(), id) {
            return true;
        }
        i = i + 1;
    }
    false
}

/// What only the allowlist keeps, of what is quoted.
pub fn allow_only(rels: &Vec<Relationship>, at: &Vec<usize>) -> (r: Vec<usize>)
    requires
        forall|i: int| 0 <= i < at@.len() ==> (#[trigger] at@[i]) < rels@.len(),
    ensures
        ints(r@) == only_allowed(rels@, at@, at@.len()),
{
    let mut out: Vec<usize> = Vec::new();
    let mut i: usize = 0;
    assert(ints(out@) =~= only_allowed(rels@, at@, 0));
    while i < at.len()
        invariant
            i <= at.len(),
            forall|i: int| 0 <= i < at@.len() ==> (#[trigger] at@[i]) < rels@.len(),
            ints(out@) == only_allowed(rels@, at@, i as nat),
        decreases at.len() - i,
    {
        let k: usize = at[i];
        let ghost was = out@;
        if !is_vetted_id(rels, rels[k].id.as_str()) {
            out.push(k);
            assert(ints(out@) =~= ints(was).push(k as int));
        }
        i = i + 1;
    }
    out
}

// ---------------------------------------------------------------- metadata

/// What the risk view knows of a relationship: its oracle risk and its class.
#[derive(Debug)]
pub struct RelMeta {
    pub oracle_risk: String,
    pub class: String,
}

pub open spec fn risk_of(r: Relationship) -> Seq<char> {
    match r.oracle_risk {
        Some(t) => t@,
        None => "high"@,
    }
}

pub open spec fn class_of(r: Relationship) -> Seq<char> {
    match r.kind {
        Some(t) => t@,
        None => "unknown"@,
    }
}

/// What the first `n` relationships say under a name; the last of the name
/// counts.
pub open spec fn meta_of(rels: Seq<Relationship>, n: nat, id: Seq<char>) -> Option<
    (Seq<char>, Seq<char>),
>
    decreases n,
{
    if n == 0 {
        None
    } else if rels[n - 1].id@ == id {
        Some((risk_of(rels[n - 1]), class_of(rels[n - 1])))
    } else {
        meta_of(rels, (n - 1) as nat, id)
    }
}

/// What a map of such metadata holds under a name.
pub open spec fn meta_at(m: Seq<(String, RelMeta)>, id: Seq<char>) -> Option<
    (Seq<char>, Seq<char>),
> {
    match lookup(m, id) {
        Some(x) => Some((x.oracle_risk@, x.class@)),
        None => None,
    }
}

/// The metadata of the whole registry, whether a relationship is quoted or not:
/// one that is no longer quoted still holds capital.
pub fn rel_meta(rels: &Vec<Relationship>) -> (r: Vec<(String, RelMeta)>)
    ensures
        forall|id: Seq<char>| #[trigger] meta_at(r@, id) == meta_of(rels@, rels@.len(), id),
{
    let mut m: Vec<(String, RelMeta)> = Vec::new();
    let mut i: usize = 0;
    while i < rels.len()
        invariant
            i <= rels.len(),
            forall|id: Seq<char>| #[trigger] meta_at(m@, id) == meta_of(rels@, i as nat, id),
        decreases rels.len() - i,
    {
        let oracle_risk: String = match &rels[i].oracle_risk {
            Some(t) => t.clone(),
            None => "high".to_owned(),
        };
        let class: String = match &rels[i].kind {
            Some(t) => t.clone(),
            None => "unknown".to_owned(),
        };
        let ghost was = m@;
        put(&mut m, rels[i].id.as_str(), RelMeta { oracle_risk, class });
        proof {
            assert forall|id: Seq<char>| #[trigger] meta_at(m@, id) == meta_of(
                rels@,
                (i + 1) as nat,
                id,
            ) by {
                assert(meta_at(was, id) == meta_of(rels@, i as nat, id));
            }
        }
        i = i + 1;
    }
    m
}

// ------------------------------------------------------------ market index

/// The quoters, of those at the first `n` places, with a leg on a market: one
/// entry for each such leg, in order.
pub open spec fn touching(
    rels: Seq<Relationship>,
    at: Seq<usize>,
    venue: Seq<char>,
    market: Seq<char>,
    n: nat,
) -> Seq<int>
    decreases n,
{
    if n == 0 {
        Seq::empty()
    } else {
        touching(rels, at, venue, market, (n - 1) as nat) + legs_on(
            rels[at[n - 1] as int].legs@,
            venue,
            market,
            n - 1,
            rels[at[n - 1] as int].legs@.len(),
        )
    }
}

/// The quoter `q`, once for each of its first `n` legs that stands on a market.
pub open spec fn legs_on(
    legs: Seq<RegLeg>,
    venue: Seq<char>,
    market: Seq<char>,
    q: int,
    n: nat,
) -> Seq<int>
    decreases n,
{
    if n == 0 {
        Seq::empty()
    } else {
        let rest = legs_on(legs, venue, market, q, (n - 1) as nat);
        if legs[n - 1].venue@ == venue && legs[n - 1].market_id@ == market {
            rest.push(q)
        } else {
            rest
        }
    }
}

/// The quoters that an event on a market concerns, by their places among what is
/// quoted.
pub fn quoters_of(rels: &Vec<Relationship>, at: &Vec<usize>, venue: &str, market: &str) -> (r: Vec<
    usize,
>)
    requires
        forall|i: int| 0 <= i < at@.len() ==> (#[trigger] at@[i]) < rels@.len(),
    ensures
        ints(r@) == touching(rels@, at@, venue@, market@, at@.len()),
{
    let mut out: Vec<usize> = Vec::new();
    let mut i: usize = 0;
    assert(ints(out@) =~= touching(rels@, at@, venue@, market@, 0));
    while i < at.len()
        invariant
            i <= at.len(),
            forall|i: int| 0 <= i < at@.len() ==> (#[trigger] at@[i]) < rels@.len(),
            ints(out@) == touching(rels@, at@, venue@, market@, i as nat),
        decreases at.len() - i,
    {
        let legs: &Vec<RegLeg> = &rels[at[i]].legs;
        let ghost before = ints(out@);
        let mut k: usize = 0;
        assert(before + legs_on(legs@, venue@, market@, i as int, 0) =~= before);
        while k < legs.len()
            invariant
                k <= legs.len(),
                ints(out@) == before + legs_on(legs@, venue@, market@, i as int, k as nat),
            decreases legs.len() - k,
        {
            let ghost was = ints(out@);
            if same(legs[k].venue.as_str(), venue) && same(legs[k].market_id.as_str(), market) {
                out.push(i);
                assert(ints(out@) =~= was.push(i as int));
                assert(ints(out@) =~= before + legs_on(
                    legs@,
                    venue@,
                    market@,
                    i as int,
                    (k + 1) as nat,
                ));
            }
            k = k + 1;
        }
        i = i + 1;
    }
    out
}

// ------------------------------------------------------------------- lines

/// The census of the admission.
pub open spec fn gate_text(
    total: u64,
    quoters: u64,
    gated: u64,
    vetoed: u64,
    file: Seq<char>,
    names: u64,
) -> Seq<char> {
    "[gate] "@ + numeral(total as nat) + " relationships -> "@ + numeral(quoters as nat)
        + " quoting; "@ + numeral(gated as nat) + " not quoted ("@ + numeral(vetoed as nat)
        + " vetoed by registry verdict, rest not human-vetted and not in "@ + file
        + ", which lists "@ + numeral(names as nat)
        + " ids). Quoting is the only thing this gate decides; it is not an account-wide halt."@
}

/// The census of the admission.
pub fn gate_line(total: u64, quoters: u64, gated: u64, vetoed: u64, file: &str, names: u64) -> (r:
    String)
    ensures
        r@ == gate_text(total, quoters, gated, vetoed, file@, names),
{
    let mut s: String = "[gate] ".to_owned();
    s.append(number(total).as_str());
    s.append(" relationships -> ");
    s.append(number(quoters).as_str());
    s.append(" quoting; ");
    s.append(number(gated).as_str());
    s.append(" not quoted (");
    s.append(number(vetoed).as_str());
    s.append(" vetoed by registry verdict, rest not human-vetted and not in ");
    s.append(file);
    s.append(", which lists ");
    s.append(number(names).as_str());
    s.append(
        " ids). Quoting is the only thing this gate decides; it is not an account-wide halt.",
    );
    s
}

/// A verdict overrules an entry on the allowlist.
pub open spec fn veto_text(id: Seq<char>, verdict: Seq<char>, file: Seq<char>) -> Seq<char> {
    "[gate] VETO "@ + id + ": registry verdict \""@ + verdict + "\" overrides its entry in "@
        + file
        + " — this process will not quote it. That is the whole effect: the naked-leg hedger does not read this gate and can still place orders on the pair."@
}

/// A verdict overrules an entry on the allowlist.
pub fn veto_line(id: &str, verdict: &str, file: &str) -> (r: String)
    ensures
        r@ == veto_text(id@, verdict@, file@),
{
    let mut s: String = "[gate] VETO ".to_owned();
    s.append(id);
    s.append(": registry verdict \"");
    s.append(verdict);
    s.append("\" overrides its entry in ");
    s.append(file);
    s.append(
        " — this process will not quote it. That is the whole effect: the naked-leg hedger does not read this gate and can still place orders on the pair.",
    );
    s
}

// --------------------------------------------------------------------- laws

/// A veto beats the allowlist and a human's vetting alike.
pub proof fn law_a_veto_beats_the_allowlist(
    r: Relationship,
    allow: Seq<String>,
    prefixes: Seq<String>,
)
    requires
        r.veto is Some,
    ensures
        !quoted_rel(r, allow, prefixes),
{
}

/// Prefixes only narrow what is admitted: what is quoted under some is quoted without
/// any.
pub proof fn law_prefixes_only_narrow(
    r: Relationship,
    allow: Seq<String>,
    prefixes: Seq<String>,
)
    requires
        quoted_rel(r, allow, prefixes),
    ensures
        quoted_rel(r, allow, Seq::empty()),
        tradable_rel(r, allow),
{
}

/// A shorter allowlist never widens what is admitted; without one, only what a human has
/// vetted is quoted.
pub proof fn law_a_missing_allowlist_narrows(
    r: Relationship,
    allow: Seq<String>,
    shorter: Seq<String>,
    prefixes: Seq<String>,
)
    requires
        forall|k: Seq<char>| #[trigger] listed(shorter, k) ==> listed(allow, k),
        quoted_rel(r, shorter, prefixes),
    ensures
        quoted_rel(r, allow, prefixes),
        shorter.len() == 0 ==> r.human_vetted,
{
}

/// A relationship that stands on both venues, with its market on each.
#[derive(Debug)]
pub struct Pair {
    pub rel_id: String,
    pub kalshi: String,
    pub pmus: String,
}

/// The market of the first of the first `n` legs that stands on a venue.
pub open spec fn leg_on(legs: Seq<RegLeg>, venue: Seq<char>, n: nat) -> Option<Seq<char>>
    decreases n,
{
    if n == 0 {
        None
    } else {
        let before = leg_on(legs, venue, (n - 1) as nat);
        if before is None && legs[n - 1].venue@ == venue {
            Some(legs[n - 1].market_id@)
        } else {
            before
        }
    }
}

/// Where a relationship stands on a venue, if it does.
pub open spec fn stands_on(r: Relationship, venue: Venue) -> Option<Seq<char>> {
    leg_on(r.legs@, venue.name(), r.legs@.len())
}

/// The names and markets of those of the first `n` relationships that stand on
/// both venues.
pub open spec fn paired(rels: Seq<Relationship>, n: nat) -> Seq<(Seq<char>, Seq<char>, Seq<char>)>
    decreases n,
{
    if n == 0 {
        Seq::empty()
    } else {
        let r = rels[n - 1];
        let rest = paired(rels, (n - 1) as nat);
        match (stands_on(r, Venue::Kalshi), stands_on(r, Venue::PolymarketUs)) {
            (Some(k), Some(p)) => rest.push((r.id@, k, p)),
            _ => rest,
        }
    }
}

/// What pairs say.
pub open spec fn pair_texts(v: Seq<Pair>) -> Seq<(Seq<char>, Seq<char>, Seq<char>)> {
    Seq::new(v.len(), |i: int| (v[i].rel_id@, v[i].kalshi@, v[i].pmus@))
}

fn find_leg(r: &Relationship, venue: Venue) -> (m: Option<&String>)
    ensures
        match m {
            Some(t) => stands_on(*r, venue) == Some(t@),
            None => stands_on(*r, venue) is None,
        },
{
    let mut i: usize = 0;
    while i < r.legs.len()
        invariant
            i <= r.legs@.len(),
            leg_on(r.legs@, venue.name(), i as nat) is None,
        decreases r.legs@.len() - i,
    {
        if same(r.legs[i].venue.as_str(), venue.as_str()) {
            proof {
                lemma_first_leg_stays(r.legs@, venue.name(), (i + 1) as nat, r.legs@.len());
            }
            return Some(&r.legs[i].market_id);
        }
        i = i + 1;
    }
    None
}

proof fn lemma_first_leg_stays(legs: Seq<RegLeg>, venue: Seq<char>, i: nat, n: nat)
    requires
        i <= n <= legs.len(),
        leg_on(legs, venue, i) is Some,
    ensures
        leg_on(legs, venue, n) == leg_on(legs, venue, i),
    decreases n,
{
    if i < n {
        lemma_first_leg_stays(legs, venue, i, (n - 1) as nat);
    }
}

/// The relationships that stand on both venues, whether or not this run quotes
/// them: one that was revoked can still be naked.
pub fn pairs_from_registry(rels: &Vec<Relationship>) -> (r: Vec<Pair>)
    ensures
        pair_texts(r@) == paired(rels@, rels@.len()),
{
    let mut out: Vec<Pair> = Vec::new();
    let mut i: usize = 0;
    while i < rels.len()
        invariant
            i <= rels@.len(),
            pair_texts(out@) == paired(rels@, i as nat),
        decreases rels@.len() - i,
    {
        let rel: &Relationship = &rels[i];
        match (find_leg(rel, Venue::Kalshi), find_leg(rel, Venue::PolymarketUs)) {
            (Some(k), Some(p)) => {
                let ghost before = out@;
                out.push(Pair { rel_id: rel.id.clone(), kalshi: k.clone(), pmus: p.clone() });
                assert(pair_texts(out@) =~= pair_texts(before).push(
                    (rel.id@, k@, p@),
                ));
            },
            _ => {},
        }
        i = i + 1;
    }
    out
}

/// Every relationship that stands on both venues is among the pairs, whatever
/// its verdict and whatever this run may quote.
pub proof fn law_the_pairs_cover_the_whole_registry(rels: Seq<Relationship>, n: nat, at: int)
    requires
        0 <= at < n <= rels.len(),
        stands_on(rels[at], Venue::Kalshi) is Some,
        stands_on(rels[at], Venue::PolymarketUs) is Some,
    ensures
        paired(rels, n).contains(
            (
                rels[at].id@,
                stands_on(rels[at], Venue::Kalshi)->0,
                stands_on(rels[at], Venue::PolymarketUs)->0,
            ),
        ),
    decreases n,
{
    let rest = paired(rels, (n - 1) as nat);
    let all = paired(rels, n);
    let it = (
        rels[at].id@,
        stands_on(rels[at], Venue::Kalshi)->0,
        stands_on(rels[at], Venue::PolymarketUs)->0,
    );
    if at == n - 1 {
        assert(all[rest.len() as int] == it);
    } else {
        law_the_pairs_cover_the_whole_registry(rels, (n - 1) as nat, at);
        let j = choose|j: int| 0 <= j < rest.len() && rest[j] == it;
        assert(all[j] == it);
    }
}

} // verus!
