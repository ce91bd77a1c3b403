//! What the exit pass keeps between cycles, and the rule that lets one exit
//! rest at a time.
use crate::assoc::{find, lookup, put};
use crate::board::{elapsed, elapsed_ns, seconds, seconds_text};
use crate::debounce::{
    admitted, folded, law_held_candidates_stay_admitted, ripe, ripe_at, Debounce, Seen,
};
use crate::decide::Exit;
use crate::fees::{in_force, FeeSchedule};
use crate::money::qty_ok;
use crate::order::Order;
use crate::text::{
    add_name, copy_names, distinct, is_listed, listed, number, numeral, same, with_name,
};
use vstd::prelude::*;
use vstd::string::StringExecFns;

verus! {

/// Exits resting at once.
pub const MAX_RESTING: usize = 1;

/// How long a resting exit may hold the one slot while others wait for it, in
/// nanoseconds: an hour.
pub const MAX_RESTING_NS: u64 = 3_600_000_000_000;

/// Selections that a hand-over of the slot survives.
pub const HANDOVER_CYCLES: u32 = 3;

/// An exit that this process has at a venue.
#[derive(Debug)]
pub struct Resting {
    pub order: Order,
    /// The venue's id, to which a cancel and a fill read are addressed.
    pub venue_order_id: String,
    pub client_order_id: String,
    /// When it was placed, in nanoseconds.
    pub since: u64,
}

impl Clone for Resting {
    fn clone(&self) -> (r: Self)
        ensures
            r == *self,
    {
        Resting {
            order: self.order.clone(),
            venue_order_id: self.venue_order_id.clone(),
            client_order_id: self.client_order_id.clone(),
            since: self.since,
        }
    }
}

/// A first leg that traded and whose other leg did not close.
#[derive(Debug)]
pub struct PendingClose {
    pub order: Order,
    /// Contracts that the first leg traded, and that the other leg owes.
    pub filled: i64,
    /// When the first leg traded, in nanoseconds.
    pub since: u64,
    /// Cycles in which closing it was tried.
    pub attempts: u32,
}

impl Clone for PendingClose {
    fn clone(&self) -> (r: Self)
        ensures
            r == *self,
    {
        PendingClose {
            order: self.order.clone(),
            filled: self.filled,
            since: self.since,
            attempts: self.attempts,
        }
    }
}

/// A market that a venue refused as halted.
#[derive(Clone, Copy, Debug, PartialEq, Eq, Structural)]
pub struct Park {
    /// Until when it is left alone, in nanoseconds.
    pub until: u64,
    /// How often it was refused.
    pub strikes: u32,
}

/// Why the resting exit should give up the slot.
#[derive(Debug)]
pub struct Rotation {
    pub market: String,
    pub age_ns: u64,
    /// Other candidates that could use the slot.
    pub waiting: u64,
}

impl Rotation {
    pub open spec fn message(self) -> Seq<char> {
        self.market@
            + " has held the only exit slot for "@
            + numeral(seconds(self.age_ns as int))
            + "s (limit 3600s) with "@
            + numeral(self.waiting as nat)
            + " other held candidate(s) waiting on it — pulling so one of them can have it. "@
            + self.market@
            + " is skipped until every other held candidate has had the slot; it comes back round on the lap after."@
    }

    /// The reason in words.
    pub fn text(&self) -> (r: String)
        ensures
            r@ == self.message(),
    {
        let mut s: String = self.market.as_str().to_owned();
        s.append(" has held the only exit slot for ");
        s.append(seconds_text(self.age_ns).as_str());
        s.append("s (limit 3600s) with ");
        s.append(number(self.waiting as u64).as_str());
        s.append(" other held candidate(s) waiting on it — pulling so one of them can have it. ");
        s.append(self.market.as_str());
        s.append(" is skipped until every other held candidate has had the slot; it comes back round on the lap after.");
        s
    }
}

/// Everything that the exit pass keeps between cycles.
pub struct Live {
    /// Decide and log, and send nothing.
    pub shadow: bool,
    /// Whether an exit may cross both legs.
    pub take_ok: bool,
    pub ledger_path: String,
    pub debounce: Debounce,
    pub resting: Option<Resting>,
    /// A close that did not complete.
    pub pending: Option<PendingClose>,
    /// Set where the resting exit should give up the slot.
    pub rotate: Option<Rotation>,
    /// Markets that have held the slot in this lap, oldest first.
    pub served: Vec<String>,
    /// Selections since anything last rested, while a lap is in progress.
    pub handover_age: u32,
    /// Markets where an order of ours may rest under an id that nothing here
    /// can address. Never removed.
    pub unaddressable: Vec<String>,
    pub fees: FeeSchedule,
    pub parked: Vec<(String, Park)>,
}

/// Why nothing may be worked in this cycle.
#[derive(Debug)]
pub enum TargetRefusal {
    /// A naked leg is carried.
    Halted { outstanding: u64, held: u64, of: u64 },
    AlreadyResting { held: u64, of: u64 },
    NoneHeld { of: u64 },
    AllParked { markets: Vec<String> },
}

/// The first `n` names, with a comma between them.
pub open spec fn joined(names: Seq<String>, n: nat) -> Seq<char>
    decreases n,
{
    if n == 0 {
        Seq::empty()
    } else if n == 1 {
        names[0]@
    } else {
        joined(names, (n - 1) as nat) + ", "@ + names[n - 1]@
    }
}

/// The names with a comma between them.
pub fn join(names: &Vec<String>) -> (r: String)
    ensures
        r@ == joined(names@, names@.len()),
{
    let mut s: String = String::new();
    let mut i: usize = 0;
    while i < names.len()
        invariant
            i <= names.len(),
            s@ == joined(names@, i as nat),
        decreases names.len() - i,
    {
        if i > 0 {
            s.append(", ");
        }
        s.append(names[i].as_str());
        assert(Seq::<char>::empty() + names@[i as int]@ =~= names@[i as int]@);
        i = i + 1;
    }
    s
}

impl TargetRefusal {
    pub open spec fn message(self) -> Seq<char> {
        match self {
            TargetRefusal::Halted { outstanding, held, of } => numeral(outstanding as nat)
                + " naked leg(s) outstanding — a Kalshi exit SOLD contracts whose PM-US leg this process could not close or could not read, so the lot the ledger still calls open is one the venue has already sold. Resting another ask against it compounds the naked short by a clip a cycle, which is the failure this halt exists to make unexpressible. `heal` IS WORKING ON IT every cycle — re-reading venue truth, re-sizing to the shortfall and re-pricing — and this clears the moment it is flat; no restart, and no hand. ("@
                + numeral(held as nat)
                + " of "@
                + numeral(of as nat)
                + " candidate(s) are still held, and the debounce is still being folded for all of them.)"@,
            TargetRefusal::AlreadyResting { held, of } => "an exit is already resting ("@
                + numeral(held as nat)
                + " of "@
                + numeral(of as nat)
                + " in-scope candidate(s) held) — MAX_RESTING is 1, so nothing else may rest until it fills or is pulled"@,
            TargetRefusal::NoneHeld { of } => numeral(of as nat)
                + " candidate(s), none held for 120s across 3 scans — 60% of every excursion above the floor on the live tape is one sample long"@,
            TargetRefusal::AllParked { markets } => "all "@
                + numeral(markets@.len())
                + " held candidate(s) are on markets halted at the venue ("@
                + joined(markets@, markets@.len())
                + "); not re-sending into them"@,
        }
    }

    /// The refusal in words.
    pub fn text(&self) -> (r: String)
        ensures
            r@ == self.message(),
    {
        match self {
            TargetRefusal::Halted { outstanding, held, of } => {
                let mut s: String = number(*outstanding as u64).as_str().to_owned();
                s.append(" naked leg(s) outstanding — a Kalshi exit SOLD contracts whose PM-US leg this process could not close or could not read, so the lot the ledger still calls open is one the venue has already sold. Resting another ask against it compounds the naked short by a clip a cycle, which is the failure this halt exists to make unexpressible. `heal` IS WORKING ON IT every cycle — re-reading venue truth, re-sizing to the shortfall and re-pricing — and this clears the moment it is flat; no restart, and no hand. (");
                s.append(number(*held as u64).as_str());
                s.append(" of ");
                s.append(number(*of as u64).as_str());
                s.append(" candidate(s) are still held, and the debounce is still being folded for all of them.)");
                s
            },
            TargetRefusal::AlreadyResting { held, of } => {
                let mut s: String = "an exit is already resting (".to_owned();
                s.append(number(*held as u64).as_str());
                s.append(" of ");
                s.append(number(*of as u64).as_str());
                s.append(" in-scope candidate(s) held) — MAX_RESTING is 1, so nothing else may rest until it fills or is pulled");
                s
            },
            TargetRefusal::NoneHeld { of } => {
                let mut s: String = number(*of as u64).as_str().to_owned();
                s.append(" candidate(s), none held for 120s across 3 scans — 60% of every excursion above the floor on the live tape is one sample long");
                s
            },
            TargetRefusal::AllParked { markets } => {
                let mut s: String = "all ".to_owned();
                s.append(number(markets.len() as u64).as_str());
                s.append(" held candidate(s) are on markets halted at the venue (");
                s.append(join(markets).as_str());
                s.append("); not re-sending into them");
                s
            },
        }
    }
}

// ------------------------------------------------------------ the selection

/// Whether a market is left alone at `now`.
pub open spec fn parked_at(parked: Seq<(String, Park)>, market: Seq<char>, now: u64) -> bool {
    lookup(parked, market) matches Some(p) && p.until > now
}

/// The first `n` of the places `at`, without those on parked markets.
pub open spec fn open_at(
    at: Seq<int>,
    exits: Seq<Exit>,
    parked: Seq<(String, Park)>,
    now: u64,
    n: nat,
) -> Seq<int>
    decreases n,
{
    if n == 0 {
        Seq::empty()
    } else {
        let before = open_at(at, exits, parked, now, (n - 1) as nat);
        if parked_at(parked, exits[at[n - 1]].market_id@, now) {
            before
        } else {
            before.push(at[n - 1])
        }
    }
}

/// How many of the first `n` places could use the slot that `incumbent` holds.
pub open spec fn waiters(
    at: Seq<int>,
    exits: Seq<Exit>,
    parked: Seq<(String, Park)>,
    incumbent: Seq<char>,
    now: u64,
    n: nat,
) -> nat
    decreases n,
{
    if n == 0 {
        0
    } else {
        let e = exits[at[n - 1]];
        waiters(at, exits, parked, incumbent, now, (n - 1) as nat) + if e.market_id@ != incumbent
            && !parked_at(parked, e.market_id@, now) {
            1nat
        } else {
            0nat
        }
    }
}

/// The first of the places `at` whose market is not in `served`.
pub open spec fn first_unserved(at: Seq<int>, exits: Seq<Exit>, served: Seq<String>) -> Option<int>
    decreases at.len(),
{
    if at.len() == 0 {
        None
    } else if !listed(served, exits[at[0]].market_id@) {
        Some(at[0])
    } else {
        first_unserved(at.drop_first(), exits, served)
    }
}

/// The lap and its age after one more selection: past its budget the market
/// that was left out longest comes back.
pub open spec fn lapsed(served: Seq<String>, age: u32) -> (Seq<String>, int) {
    if served.len() == 0 {
        (served, age as int)
    } else if age + 1 > HANDOVER_CYCLES {
        (served.drop_first(), 0)
    } else {
        (served, age + 1)
    }
}

/// What the selection answers.
pub enum Pick {
    Halted,
    AlreadyResting,
    NoneHeld,
    AllParked,
    /// Work the candidate at this place.
    Candidate(int),
}

/// The answer of the selection to the admitted candidates `at`.
pub open spec fn pick(
    live: Live,
    at: Seq<int>,
    exits: Seq<Exit>,
    now: u64,
    outstanding: u64,
) -> Pick {
    if outstanding > 0 {
        Pick::Halted
    } else if live.resting is Some {
        Pick::AlreadyResting
    } else if at.len() == 0 {
        Pick::NoneHeld
    } else {
        let open = open_at(at, exits, live.parked@, now, at.len());
        if open.len() == 0 {
            Pick::AllParked
        } else {
            match first_unserved(open, exits, lapsed(live.served@, live.handover_age).0) {
                Some(i) => Pick::Candidate(i),
                None => Pick::Candidate(open[0]),
            }
        }
    }
}

/// Whether a refusal says why nothing was picked of the admitted candidates `at`.
pub open spec fn says(
    why: TargetRefusal,
    refused: Pick,
    at: Seq<int>,
    exits: Seq<Exit>,
    outstanding: u64,
) -> bool {
    match refused {
        Pick::Halted => why matches TargetRefusal::Halted { outstanding: n, held, of } && n
            == outstanding && held == at.len() && of == exits.len(),
        Pick::AlreadyResting => why matches TargetRefusal::AlreadyResting { held, of } && held
            == at.len() && of == exits.len(),
        Pick::NoneHeld => why matches TargetRefusal::NoneHeld { of } && of == exits.len(),
        Pick::AllParked => why matches TargetRefusal::AllParked { markets } && markets@.len()
            == at.len() && forall|i: int|
            0 <= i < at.len() ==> (#[trigger] markets@[i])@ == exits[at[i]].market_id@,
        Pick::Candidate(_) => false,
    }
}

/// Whether the resting exit is asked to give up the slot: it has held it too
/// long, and somebody else could use it.
pub open spec fn rotates(r: Resting, waiting: nat, now: u64) -> bool {
    elapsed(r.since, now) > MAX_RESTING_NS && waiting > 0
}

/// What the selection keeps: all but the debounce, the rotation and the lap.
pub open spec fn gate_keeps(a: Live, b: Live) -> bool {
    &&& a.shadow == b.shadow
    &&& a.take_ok == b.take_ok
    &&& a.ledger_path == b.ledger_path
    &&& a.resting == b.resting
    &&& a.pending == b.pending
    &&& a.unaddressable == b.unaddressable
    &&& a.fees == b.fees
    &&& a.parked == b.parked
}

/// How the selection moves the rotation and the lap.
pub open spec fn gate_moves(
    before: Live,
    after: Live,
    at: Seq<int>,
    exits: Seq<Exit>,
    now: u64,
    outstanding: u64,
) -> bool {
    match pick(before, at, exits, now, outstanding) {
        Pick::AlreadyResting => {
            let r = before.resting->0;
            let waiting = waiters(
                at,
                exits,
                before.parked@,
                r.order.market@,
                now,
                at.len(),
            );
            if rotates(r, waiting, now) {
                &&& after.rotate is Some
                &&& after.rotate->0.market@ == r.order.market@
                &&& after.rotate->0.age_ns == elapsed(r.since, now)
                &&& after.rotate->0.waiting == waiting
                &&& with_name(before.served@, r.order.market@, after.served@)
                &&& after.handover_age == 0
            } else {
                &&& after.rotate is None
                &&& after.served == before.served
                &&& after.handover_age == before.handover_age
            }
        },
        Pick::Candidate(_) => {
            let open = open_at(at, exits, before.parked@, now, at.len());
            let (served, age) = lapsed(before.served@, before.handover_age);
            &&& after.rotate == before.rotate
            &&& if first_unserved(open, exits, served) is Some {
                after.served@ == served && after.handover_age == age
            } else {
                after.served@ == Seq::<String>::empty() && after.handover_age == 0
            }
        },
        _ => {
            &&& after.rotate == before.rotate
            &&& after.served == before.served
            &&& after.handover_age == before.handover_age
        },
    }
}

proof fn lemma_open_at(
    at: Seq<int>,
    exits: Seq<Exit>,
    parked: Seq<(String, Park)>,
    now: u64,
    n: nat,
)
    requires
        n <= at.len(),
        forall|i: int| 0 <= i < at.len() ==> 0 <= (#[trigger] at[i]) < exits.len(),
    ensures
        forall|i: int|
            0 <= i < open_at(at, exits, parked, now, n).len() ==> 0 <= (#[trigger] open_at(
                at,
                exits,
                parked,
                now,
                n,
            )[i]) < exits.len() && !parked_at(
                parked,
                exits[open_at(at, exits, parked, now, n)[i]].market_id@,
                now,
            ),
        open_at(at, exits, parked, now, n).len() <= n,
    decreases n,
{
    if n > 0 {
        lemma_open_at(at, exits, parked, now, (n - 1) as nat);
    }
}

proof fn lemma_first_unserved_skip(at: Seq<int>, exits: Seq<Exit>, served: Seq<String>, k: int)
    requires
        0 <= k <= at.len(),
        forall|i: int| 0 <= i < k ==> listed(served, exits[#[trigger] at[i]].market_id@),
    ensures
        first_unserved(at, exits, served) == first_unserved(at.skip(k), exits, served),
    decreases k,
{
    if k == 0 {
        assert(at.skip(0) =~= at);
    } else {
        assert(listed(served, exits[at[0]].market_id@));
        let rest = at.drop_first();
        assert forall|i: int| 0 <= i < k - 1 implies listed(
            served,
            exits[#[trigger] rest[i]].market_id@,
        ) by {
            assert(rest[i] == at[i + 1]);
        }
        lemma_first_unserved_skip(rest, exits, served, k - 1);
        assert(rest.skip(k - 1) =~= at.skip(k));
    }
}

/// The places as numbers.
pub open spec fn places(at: Seq<usize>) -> Seq<int> {
    Seq::new(at.len(), |i: int| at[i] as int)
}

impl Live {
    pub fn new(shadow: bool, ledger_path: String) -> (r: Live)
        ensures
            r.shadow == shadow,
            r.ledger_path == ledger_path,
            !r.take_ok,
            r.debounce.seen@ == Seq::<Seen>::empty(),
            r.resting is None,
            r.pending is None,
            r.rotate is None,
            r.served@ == Seq::<String>::empty(),
            r.handover_age == 0,
            r.unaddressable@ == Seq::<String>::empty(),
            r.fees == in_force(),
            r.parked@ == Seq::<(String, Park)>::empty(),
            r.wf(),
    {
        Live {
            shadow,
            take_ok: false,
            ledger_path,
            debounce: Debounce::new(),
            resting: None,
            pending: None,
            rotate: None,
            served: Vec::new(),
            handover_age: 0,
            unaddressable: Vec::new(),
            fees: FeeSchedule::new(),
            parked: Vec::new(),
        }
    }

    /// The invariant: what rests and what is pending has a quantity, nothing
    /// stands twice in a lap or among the markets that cannot be addressed, and
    /// a lap is never older than its budget.
    pub open spec fn wf(self) -> bool {
        &&& self.resting matches Some(r) ==> qty_ok(r.order.qty)
        &&& self.pending matches Some(p) ==> qty_ok(p.filled)
        &&& self.fees.wf()
        &&& distinct(self.served@)
        &&& distinct(self.unaddressable@)
        &&& self.handover_age <= HANDOVER_CYCLES
    }

    /// Whether a market is left alone at `now`.
    pub fn is_parked(&self, market: &str, now: u64) -> (r: bool)
        ensures
            r == parked_at(self.parked@, market@, now),
    {
        match find(&self.parked, market) {
            Some(p) => p.until > now,
            None => false,
        }
    }

    /// How often a market will have been refused with one more refusal.
    pub open spec fn strikes_after(self, market: Seq<char>) -> u32 {
        match lookup(self.parked@, market) {
            Some(p) => if p.strikes < u32::MAX {
                (p.strikes + 1) as u32
            } else {
                p.strikes
            },
            None => 1,
        }
    }

    /// How often a market will have been refused with one more refusal, which
    /// is what the length of the next park depends on.
    pub fn next_strikes(&self, market: &str) -> (r: u32)
        ensures
            r == self.strikes_after(market@),
    {
        match find(&self.parked, market) {
            Some(p) => if p.strikes < u32::MAX {
                p.strikes + 1
            } else {
                p.strikes
            },
            None => 1,
        }
    }

    /// Leaves a market alone for `d` nanoseconds from `now`.
    pub fn park(&mut self, market: &str, now: u64, d: u64)
        ensures
            forall|k: Seq<char>| #[trigger]
                lookup(final(self).parked@, k) == (if k == market@ {
                    Some(
                        Park {
                            until: if now + d <= u64::MAX {
                                (now + d) as u64
                            } else {
                                u64::MAX
                            },
                            strikes: old(self).strikes_after(market@),
                        },
                    )
                } else {
                    lookup(old(self).parked@, k)
                }),
            *final(self) == (Live { parked: final(self).parked, ..*old(self) }),
    {
        let strikes: u32 = self.next_strikes(market);
        let until: u64 = if now <= u64::MAX - d {
            now + d
        } else {
            u64::MAX
        };
        put(&mut self.parked, market, Park { until, strikes });
    }

    /// Whether a market is being worked: an order of ours may rest there, one
    /// does, or one is about to.
    pub open spec fn works(self, extra: Option<&str>, market: Seq<char>) -> bool {
        ||| listed(self.unaddressable@, market)
        ||| (self.resting matches Some(r) && r.order.market@ == market)
        ||| (extra matches Some(m) && m@ == market)
    }

    /// The markets that are being worked, each once.
    pub fn working_set(&self, extra: Option<&str>) -> (r: Vec<String>)
        requires
            self.wf(),
        ensures
            distinct(r@),
            forall|m: Seq<char>| #[trigger] listed(r@, m) <==> self.works(extra, m),
    {
        let mut s: Vec<String> = copy_names(&self.unaddressable);
        if let Some(r) = &self.resting {
            add_name(&mut s, r.order.market.as_str());
        }
        if let Some(m) = extra {
            add_name(&mut s, m);
        }
        s
    }

    fn count_waiters(&self, at: &Vec<usize>, exits: &Vec<Exit>, incumbent: &str, now: u64) -> (r:
        u64)
        requires
            forall|i: int| 0 <= i < at@.len() ==> (#[trigger] at@[i]) < exits@.len(),
        ensures
            r == waiters(
                places(at@),
                exits@,
                self.parked@,
                incumbent@,
                now,
                at@.len(),
            ),
    {
        let mut n: u64 = 0;
        let mut i: usize = 0;
        while i < at.len()
            invariant
                i <= at.len(),
                n <= i,
                forall|j: int| 0 <= j < at@.len() ==> (#[trigger] at@[j]) < exits@.len(),
                n == waiters(
                    places(at@),
                    exits@,
                    self.parked@,
                    incumbent@,
                    now,
                    i as nat,
                ),
            decreases at.len() - i,
        {
            let e: &Exit = &exits[at[i]];
            assert(places(at@)[i as int] == at@[i as int]);
            if !same(e.market_id.as_str(), incumbent) && !self.is_parked(
                e.market_id.as_str(),
                now,
            ) {
                n = n + 1;
            }
            i = i + 1;
        }
        n
    }

    fn open_places(&self, at: &Vec<usize>, exits: &Vec<Exit>, now: u64) -> (r: Vec<usize>)
        requires
            forall|i: int| 0 <= i < at@.len() ==> (#[trigger] at@[i]) < exits@.len(),
        ensures
            places(r@) == open_at(places(at@), exits@, self.parked@, now, at@.len()),
            forall|i: int| 0 <= i < r@.len() ==> (#[trigger] r@[i]) < exits@.len(),
    {
        let mut out: Vec<usize> = Vec::new();
        let mut i: usize = 0;
        assert(places(out@) =~= Seq::<int>::empty());
        while i < at.len()
            invariant
                i <= at.len(),
                forall|j: int| 0 <= j < at@.len() ==> (#[trigger] at@[j]) < exits@.len(),
                forall|j: int| 0 <= j < out@.len() ==> (#[trigger] out@[j]) < exits@.len(),
                places(out@) == open_at(places(at@), exits@, self.parked@, now, i as nat),
            decreases at.len() - i,
        {
            let k: usize = at[i];
            let ghost before = out@;
            assert(places(at@)[i as int] == k);
            if !self.is_parked(exits[k].market_id.as_str(), now) {
                out.push(k);
                assert(places(out@) =~= places(before).push(k as int));
            }
            i = i + 1;
        }
        out
    }

    fn find_unserved(&self, open: &Vec<usize>, exits: &Vec<Exit>) -> (r: Option<usize>)
        requires
            forall|i: int| 0 <= i < open@.len() ==> (#[trigger] open@[i]) < exits@.len(),
        ensures
            match first_unserved(places(open@), exits@, self.served@) {
                Some(k) => r == Some(k as usize) && 0 <= k < exits@.len(),
                None => r is None,
            },
    {
        let mut i: usize = 0;
        while i < open.len()
            invariant
                i <= open.len(),
                forall|j: int| 0 <= j < open@.len() ==> (#[trigger] open@[j]) < exits@.len(),
                forall|j: int|
                    0 <= j < i ==> listed(
                        self.served@,
                        exits@[#[trigger] places(open@)[j]].market_id@,
                    ),
            decreases open.len() - i,
        {
            let k: usize = open[i];
            assert(places(open@)[i as int] == k);
            if !is_listed(&self.served, exits[k].market_id.as_str()) {
                proof {
                    lemma_first_unserved_skip(places(open@), exits@, self.served@, i as int);
                    assert(places(open@).skip(i as int)[0] == k);
                }
                return Some(k);
            }
            i = i + 1;
        }
        proof {
            lemma_first_unserved_skip(places(open@), exits@, self.served@, i as int);
        }
        None
    }

    /// Which candidate, if any, this cycle may work: the rule that makes resting
    /// a second exit impossible. `wall` is the clock that the debounce counts
    /// by, `now` the one that orders are timed by.
    pub fn target(&mut self, exits: &Vec<Exit>, wall: u64, now: u64, outstanding: u64) -> (r: Result<
        usize,
        TargetRefusal,
    >)
        requires
            old(self).wf(),
        ensures
            final(self).wf(),
            folded(old(self).debounce.seen@, exits@, wall, final(self).debounce.seen@),
            gate_keeps(*old(self), *final(self)),
            ({
                let at = admitted(old(self).debounce.seen@, exits@, wall);
                &&& gate_moves(*old(self), *final(self), at, exits@, now, outstanding)
                &&& match pick(*old(self), at, exits@, now, outstanding) {
                    Pick::Candidate(k) => r == Ok::<usize, TargetRefusal>(k as usize) && 0 <= k
                        < exits@.len(),
                    refused => r matches Err(why) && says(why, refused, at, exits@, outstanding),
                }
            }),
    {
        let ghost at0 = admitted(self.debounce.seen@, exits@, wall);
        let at: Vec<usize> = self.debounce.fold(exits, wall);
        assert(places(at@) =~= at0);
        let held: u64 = at.len() as u64;
        let of: u64 = exits.len() as u64;
        if outstanding > 0 {
            return Err(TargetRefusal::Halted { outstanding, held, of });
        }
        if self.resting.is_some() {
            let (incumbent, since): (String, u64) = match &self.resting {
                Some(r) => (r.order.market.clone(), r.since),
                None => (String::new(), 0),
            };
            let age: u64 = elapsed_ns(since, now);
            let waiting: u64 = self.count_waiters(&at, exits, incumbent.as_str(), now);
            if age > MAX_RESTING_NS && waiting > 0 {
                add_name(&mut self.served, incumbent.as_str());
                self.handover_age = 0;
                self.rotate = Some(Rotation { market: incumbent, age_ns: age, waiting });
            } else {
                self.rotate = None;
            }
            return Err(TargetRefusal::AlreadyResting { held, of });
        }
        if at.len() == 0 {
            return Err(TargetRefusal::NoneHeld { of });
        }
        let open: Vec<usize> = self.open_places(&at, exits, now);
        assert(places(open@).len() == open@.len());
        if open.len() == 0 {
            let mut markets: Vec<String> = Vec::new();
            let mut i: usize = 0;
            while i < at.len()
                invariant
                    i <= at.len(),
                    markets@.len() == i,
                    places(at@) == at0,
                    forall|j: int| 0 <= j < at@.len() ==> (#[trigger] at@[j]) < exits@.len(),
                    forall|j: int|
                        0 <= j < i ==> (#[trigger] markets@[j])@ == exits@[at0[j]].market_id@,
                decreases at.len() - i,
            {
                assert(places(at@)[i as int] == at@[i as int]);
                markets.push(exits[at[i]].market_id.clone());
                i = i + 1;
            }
            return Err(TargetRefusal::AllParked { markets });
        }
        if self.served.len() > 0 {
            if self.handover_age + 1 > HANDOVER_CYCLES {
                let ghost before = self.served@;
                let _ = self.served.remove(0);
                self.handover_age = 0;
                assert(self.served@ =~= before.drop_first());
            } else {
                self.handover_age = self.handover_age + 1;
            }
        }
        match self.find_unserved(&open, exits) {
            Some(k) => Ok(k),
            None => {
                self.served = Vec::new();
                self.handover_age = 0;
                assert(places(open@)[0] == open@[0]);
                Ok(open[0])
            },
        }
    }
}

// --------------------------------------------------------------------- laws

/// Nothing is chosen while a naked leg is carried or an exit rests, so no
/// second exit can rest.
pub proof fn law_one_exit_at_a_time(
    live: Live,
    at: Seq<int>,
    exits: Seq<Exit>,
    now: u64,
    outstanding: u64,
)
    requires
        live.resting is Some || outstanding > 0,
    ensures
        !(pick(live, at, exits, now, outstanding) is Candidate),
{
}

/// What is chosen was admitted and is on a market that is open.
pub proof fn law_a_chosen_candidate_is_open(
    live: Live,
    at: Seq<int>,
    exits: Seq<Exit>,
    now: u64,
    outstanding: u64,
    k: int,
)
    requires
        forall|i: int| 0 <= i < at.len() ==> 0 <= (#[trigger] at[i]) < exits.len(),
        pick(live, at, exits, now, outstanding) == Pick::Candidate(k),
    ensures
        0 <= k < exits.len(),
        !parked_at(live.parked@, exits[k].market_id@, now),
{
    let open = open_at(at, exits, live.parked@, now, at.len());
    lemma_open_at(at, exits, live.parked@, now, at.len());
    let served = lapsed(live.served@, live.handover_age).0;
    if let Some(i) = first_unserved(open, exits, served) {
        lemma_first_unserved_stands(open, exits, served);
    } else {
        assert(open[0] == k);
    }
}

proof fn lemma_first_unserved_stands(at: Seq<int>, exits: Seq<Exit>, served: Seq<String>)
    ensures
        first_unserved(at, exits, served) matches Some(k) ==> !listed(served, exits[k].market_id@)
            && exists|i: int| 0 <= i < at.len() && #[trigger] at[i] == k,
        first_unserved(at, exits, served) is None ==> forall|i: int|
            0 <= i < at.len() ==> listed(served, exits[#[trigger] at[i]].market_id@),
    decreases at.len(),
{
    if at.len() > 0 {
        if listed(served, exits[at[0]].market_id@) {
            let rest = at.drop_first();
            lemma_first_unserved_stands(rest, exits, served);
            if let Some(k) = first_unserved(rest, exits, served) {
                let i = choose|i: int| 0 <= i < rest.len() && #[trigger] rest[i] == k;
                assert(at[i + 1] == k);
            } else {
                assert forall|i: int| 0 <= i < at.len() implies listed(
                    served,
                    exits[#[trigger] at[i]].market_id@,
                ) by {
                    if i > 0 {
                        assert(rest[i - 1] == at[i]);
                    }
                }
            }
        } else {
            assert(at[0] == first_unserved(at, exits, served)->0);
        }
    }
}

/// The slot goes round the whole held set before it repeats: while any open
/// candidate is on a market that has not had it in this lap, the one chosen is
/// on such a market too.
pub proof fn law_the_slot_laps_the_held_set(
    live: Live,
    at: Seq<int>,
    exits: Seq<Exit>,
    now: u64,
    k: int,
    i: int,
)
    requires
        pick(live, at, exits, now, 0) == Pick::Candidate(k),
        ({
            let open = open_at(at, exits, live.parked@, now, at.len());
            &&& 0 <= i < open.len()
            &&& !listed(
                lapsed(live.served@, live.handover_age).0,
                exits[open[i]].market_id@,
            )
        }),
    ensures
        !listed(lapsed(live.served@, live.handover_age).0, exits[k].market_id@),
{
    let open = open_at(at, exits, live.parked@, now, at.len());
    let served = lapsed(live.served@, live.handover_age).0;
    lemma_first_unserved_stands(open, exits, served);
    assert(open[i] == open[i]);
}

/// One hand-over of the slot: whoever held it is asked to give it up, and the
/// next candidate is chosen.
pub struct HandOver {
    /// With the exit that rests.
    pub before: Live,
    /// Once it was asked to give up the slot.
    pub asked: Live,
    /// Once the next candidate was chosen.
    pub chosen: Live,
    /// The candidates, those of them that were admitted, and the one chosen.
    pub exits: Seq<Exit>,
    pub admitted: Seq<int>,
    pub pick: int,
    /// When it was asked, and when the next was chosen.
    pub asked_at: u64,
    pub chosen_at: u64,
}

impl HandOver {
    /// The market that held the slot.
    pub open spec fn holder(self) -> Seq<char> {
        self.before.resting->0.order.market@
    }

    /// The market that is given it.
    pub open spec fn heir(self) -> Seq<char> {
        self.exits[self.pick].market_id@
    }

    /// The slot once nothing rests in it.
    pub open spec fn freed(self) -> Live {
        Live { resting: None, rotate: None, ..self.asked }
    }

    /// The candidates on markets that were open.
    pub open spec fn open(self) -> Seq<int> {
        open_at(
            self.admitted,
            self.exits,
            self.freed().parked@,
            self.chosen_at,
            self.admitted.len(),
        )
    }

    /// Whether it is one, as the selection moves.
    pub open spec fn took_place(self) -> bool {
        &&& self.before.resting is Some
        &&& gate_keeps(self.before, self.asked)
        &&& gate_moves(
            self.before,
            self.asked,
            self.admitted,
            self.exits,
            self.asked_at,
            0,
        )
        &&& self.asked.rotate is Some
        &&& pick(self.freed(), self.admitted, self.exits, self.chosen_at, 0) == Pick::Candidate(
            self.pick,
        )
        &&& gate_keeps(self.freed(), self.chosen)
        &&& gate_moves(
            self.freed(),
            self.chosen,
            self.admitted,
            self.exits,
            self.chosen_at,
            0,
        )
    }
}

/// Whether hand-overs follow each other from a fresh lap: who is given the slot
/// is the next to hold it.
pub open spec fn lap(turns: Seq<HandOver>) -> bool {
    &&& forall|i: int| 0 <= i < turns.len() ==> (#[trigger] turns[i]).took_place()
    &&& turns.len() > 0 ==> turns[0].before.served@.len() == 0
    &&& forall|i: int| 0 < i < turns.len() ==> continues(turns, i)
}

/// Whether a hand-over goes on where the one before it ended.
pub open spec fn continues(turns: Seq<HandOver>, i: int) -> bool {
    &&& turns[i].holder() == turns[i - 1].heir()
    &&& turns[i].before.served == turns[i - 1].chosen.served
}

/// Whether a market held the slot in one of the first `n` turns.
pub open spec fn has_held(turns: Seq<HandOver>, n: int, market: Seq<char>) -> bool {
    exists|i: int| 0 <= i < n && (#[trigger] turns[i]).holder() == market
}

/// Whether no market held the slot twice in the first `n` turns.
pub open spec fn all_differ(turns: Seq<HandOver>, n: int) -> bool {
    forall|i: int, j: int|
        0 <= i < j < n ==> (#[trigger] turns[i]).holder() != (#[trigger] turns[j]).holder()
}

proof fn lemma_listed_with(names: Seq<String>, name: Seq<char>, after: Seq<String>, m: Seq<char>)
    requires
        with_name(names, name, after),
    ensures
        listed(after, m) <==> listed(names, m) || m == name,
{
    if !listed(names, name) {
        if listed(names, m) {
            let i = choose|i: int| 0 <= i < names.len() && (#[trigger] names[i])@ == m;
            assert(after.take(names.len() as int)[i] == after[i]);
            assert(after[i]@ == m);
        }
        if m == name {
            assert(after[after.len() - 1]@ == m);
        }
        if listed(after, m) {
            let i = choose|i: int| 0 <= i < after.len() && (#[trigger] after[i])@ == m;
            if i < names.len() {
                assert(after.take(names.len() as int)[i] == after[i]);
                assert(names[i]@ == m);
            }
        }
    }
}

proof fn lemma_served_so_far(turns: Seq<HandOver>, n: int)
    requires
        lap(turns),
        0 <= n < turns.len(),
        all_differ(turns, n + 1),
    ensures
        forall|m: Seq<char>| #[trigger]
            listed(turns[n].before.served@, m) <==> has_held(turns, n, m),
        forall|m: Seq<char>| #[trigger]
            listed(turns[n].asked.served@, m) <==> has_held(turns, n + 1, m),
        lapsed(turns[n].freed().served@, turns[n].freed().handover_age).0
            == turns[n].asked.served@,
    decreases n,
{
    let h = turns[n];
    assert(h.took_place());
    if n > 0 {
        let g = turns[n - 1];
        assert forall|i: int, j: int| 0 <= i < j < n implies (#[trigger] turns[i]).holder() != (
        #[trigger] turns[j]).holder() by {}
        lemma_served_so_far(turns, n - 1);
        assert(continues(turns, n));
        assert(g.took_place());
        lemma_first_unserved_stands(g.open(), g.exits, g.asked.served@);
        assert(!has_held(turns, n, h.holder())) by {
            if has_held(turns, n, h.holder()) {
                let i = choose|i: int| 0 <= i < n && (#[trigger] turns[i]).holder() == h.holder();
                assert(turns[i].holder() != turns[n].holder());
            }
        }
        assert(!listed(g.asked.served@, g.heir()));
        if first_unserved(g.open(), g.exits, g.asked.served@) is None {
            lemma_open_holds_the_pick(g);
        }
        assert(g.chosen.served@ == g.asked.served@);
    }
    assert forall|m: Seq<char>| #[trigger] listed(h.asked.served@, m) <==> has_held(
        turns,
        n + 1,
        m,
    ) by {
        lemma_listed_with(h.before.served@, h.holder(), h.asked.served@, m);
        if has_held(turns, n + 1, m) {
            let i = choose|i: int| 0 <= i < n + 1 && (#[trigger] turns[i]).holder() == m;
            if i < n {
                assert(has_held(turns, n, m));
            }
        }
        if has_held(turns, n, m) {
            let i = choose|i: int| 0 <= i < n && (#[trigger] turns[i]).holder() == m;
            assert(turns[i].holder() == m);
        }
        if m == h.holder() {
            assert(turns[n].holder() == m);
        }
    }
}

proof fn lemma_open_holds_the_pick(h: HandOver)
    requires
        pick(h.freed(), h.admitted, h.exits, h.chosen_at, 0) == Pick::Candidate(h.pick),
        first_unserved(
            h.open(),
            h.exits,
            lapsed(h.freed().served@, h.freed().handover_age).0,
        ) is None,
    ensures
        h.open().len() > 0,
        h.pick == h.open()[0],
{
}

/// The slot goes round: over any number of hand-overs, every candidate that is
/// open has had it before a market has it a second time.
pub proof fn law_every_held_candidate_has_the_slot_before_one_repeats(turns: Seq<HandOver>, n: int)
    requires
        lap(turns),
        0 <= n < turns.len(),
        all_differ(turns, n + 1),
        has_held(turns, n + 1, turns[n].heir()),
    ensures
        forall|i: int|
            0 <= i < turns[n].open().len() ==> has_held(
                turns,
                n + 1,
                turns[n].exits[#[trigger] turns[n].open()[i]].market_id@,
            ),
{
    let h = turns[n];
    assert(h.took_place());
    lemma_served_so_far(turns, n);
    lemma_first_unserved_stands(h.open(), h.exits, h.asked.served@);
    assert(listed(h.asked.served@, h.heir()));
    assert(first_unserved(h.open(), h.exits, h.asked.served@) is None);
    assert forall|i: int| 0 <= i < h.open().len() implies has_held(
        turns,
        n + 1,
        h.exits[#[trigger] h.open()[i]].market_id@,
    ) by {
        assert(listed(h.asked.served@, h.exits[h.open()[i]].market_id@));
    }
}

/// What a call of `target` does to the slot, where no leg is naked.
pub open spec fn targeted(a: Live, b: Live, exits: Seq<Exit>, wall: u64, now: u64) -> bool {
    &&& folded(a.debounce.seen@, exits, wall, b.debounce.seen@)
    &&& gate_keeps(a, b)
    &&& gate_moves(a, b, admitted(a.debounce.seen@, exits, wall), exits, now, 0)
}

/// Two calls of `target` round a hand-over: the first asks the exit that rests to
/// give up the slot, the second chooses the next candidate.
pub struct Round {
    /// With the exit that rests.
    pub before: Live,
    /// After the first call.
    pub asked: Live,
    /// After the second.
    pub chosen: Live,
    /// The wall clock and the process clock of the first call.
    pub asked_at: (u64, u64),
    /// Those of the second.
    pub chosen_at: (u64, u64),
}

impl Round {
    /// The slot once nothing rests in it.
    pub open spec fn freed(self) -> Live {
        Live { resting: None, rotate: None, ..self.asked }
    }

    /// What the second call answers.
    pub open spec fn answer(self, exits: Seq<Exit>) -> Pick {
        pick(
            self.freed(),
            admitted(self.freed().debounce.seen@, exits, self.chosen_at.0),
            exits,
            self.chosen_at.1,
            0,
        )
    }

    /// Whether both calls were made and the first of them asked for the slot.
    pub open spec fn took_place(self, exits: Seq<Exit>) -> bool {
        &&& self.before.resting is Some
        &&& targeted(self.before, self.asked, exits, self.asked_at.0, self.asked_at.1)
        &&& self.asked.rotate is Some
        &&& targeted(self.freed(), self.chosen, exits, self.chosen_at.0, self.chosen_at.1)
        &&& self.asked_at.0 <= self.chosen_at.0
    }
}

/// Whether rounds follow each other over the same candidates: the `i`-th
/// candidate holds the slot in the `i`-th of them, and nothing else touched the
/// debounce, the lap or the parked markets in between.
pub open spec fn rounds(turns: Seq<Round>, exits: Seq<Exit>) -> bool {
    &&& turns.len() <= exits.len()
    &&& forall|i: int| 0 <= i < turns.len() ==> (#[trigger] turns[i]).took_place(exits)
    &&& forall|i: int|
        0 <= i < turns.len() ==> (#[trigger] turns[i]).before.resting->0.order.market@
            == exits[i].market_id@
    &&& forall|i: int| 0 < i < turns.len() ==> #[trigger] resumes(turns, i)
}

/// Whether a round starts where the one before it ended.
pub open spec fn resumes(turns: Seq<Round>, i: int) -> bool {
    &&& turns[i].before.debounce == turns[i - 1].chosen.debounce
    &&& turns[i].before.served == turns[i - 1].chosen.served
    &&& turns[i].before.parked == turns[i - 1].chosen.parked
    &&& turns[i - 1].chosen_at.0 <= turns[i].asked_at.0
}

/// Whether no two candidates are on one market.
pub open spec fn markets_differ(exits: Seq<Exit>) -> bool {
    forall|i: int, j: int|
        0 <= i < j < exits.len() ==> (#[trigger] exits[i]).market_id@ != (
        #[trigger] exits[j]).market_id@
}

/// Whether every candidate has held long enough.
pub open spec fn all_ripe(seen: Seq<Seen>, exits: Seq<Exit>, wall: u64) -> bool {
    forall|k: int| 0 <= k < exits.len() ==> ripe(seen, #[trigger] exits[k], wall)
}

/// Whether a lap has served the markets of the first `n` candidates and no other.
pub open spec fn served_first(served: Seq<String>, exits: Seq<Exit>, n: int) -> bool {
    forall|m: Seq<char>| #[trigger]
        listed(served, m) <==> exists|i: int|
            0 <= i < n && (#[trigger] exits[i]).market_id@ == m
}

/// All places, in order.
pub open spec fn all_places(n: nat) -> Seq<int> {
    Seq::new(n, |i: int| i)
}

proof fn lemma_all_admitted(seen: Seq<Seen>, exits: Seq<Exit>, wall: u64, n: nat)
    requires
        all_ripe(seen, exits, wall),
        n <= exits.len(),
    ensures
        ripe_at(seen, exits, wall, n) == all_places(n),
    decreases n,
{
    if n > 0 {
        lemma_all_admitted(seen, exits, wall, (n - 1) as nat);
        assert(ripe(seen, exits[n - 1], wall));
        assert(all_places(n) =~= all_places((n - 1) as nat).push(n - 1));
    } else {
        assert(all_places(0) =~= Seq::<int>::empty());
    }
}

proof fn lemma_all_open(
    exits: Seq<Exit>,
    parked: Seq<(String, Park)>,
    now: u64,
    n: nat,
)
    requires
        parked.len() == 0,
        n <= exits.len(),
    ensures
        open_at(all_places(exits.len()), exits, parked, now, n) == all_places(n),
    decreases n,
{
    if n > 0 {
        lemma_all_open(exits, parked, now, (n - 1) as nat);
        assert(all_places(exits.len())[n - 1] == n - 1);
        assert(all_places(n) =~= all_places((n - 1) as nat).push(n - 1));
    } else {
        assert(all_places(0) =~= Seq::<int>::empty());
    }
}

proof fn lemma_ripe_after(
    a: Live,
    b: Live,
    exits: Seq<Exit>,
    wall: u64,
    now: u64,
    later: u64,
)
    requires
        targeted(a, b, exits, wall, now),
        all_ripe(a.debounce.seen@, exits, wall),
        wall <= later,
    ensures
        all_ripe(b.debounce.seen@, exits, later),
{
    assert forall|k: int| 0 <= k < exits.len() implies ripe(
        b.debounce.seen@,
        #[trigger] exits[k],
        later,
    ) by {
        assert(ripe(a.debounce.seen@, exits[k], wall));
        law_held_candidates_stay_admitted(
            a.debounce.seen@,
            exits,
            wall,
            b.debounce.seen@,
            later,
            k,
        );
    }
}

/// What one round does to a lap that has served the first `j` candidates.
proof fn lemma_round(t: Round, exits: Seq<Exit>, j: int)
    requires
        t.took_place(exits),
        markets_differ(exits),
        0 <= j < exits.len(),
        t.before.resting->0.order.market@ == exits[j].market_id@,
        t.before.parked@.len() == 0,
        all_ripe(t.before.debounce.seen@, exits, t.asked_at.0),
        served_first(t.before.served@, exits, j),
    ensures
        t.answer(exits) == Pick::Candidate(if j + 1 < exits.len() {
            j + 1
        } else {
            0
        }),
        j + 1 < exits.len() ==> served_first(t.chosen.served@, exits, j + 1),
        t.chosen.parked@.len() == 0,
        all_ripe(t.chosen.debounce.seen@, exits, t.chosen_at.0),
{
    let f = t.freed();
    let n = exits.len();
    lemma_ripe_after(t.before, t.asked, exits, t.asked_at.0, t.asked_at.1, t.chosen_at.0);
    lemma_ripe_after(f, t.chosen, exits, t.chosen_at.0, t.chosen_at.1, t.chosen_at.0);
    lemma_all_admitted(f.debounce.seen@, exits, t.chosen_at.0, n);
    lemma_all_open(exits, f.parked@, t.chosen_at.1, n);
    let open = all_places(n);
    assert(admitted(f.debounce.seen@, exits, t.chosen_at.0) == open);
    assert(open_at(open, exits, f.parked@, t.chosen_at.1, open.len()) == open);
    let served = f.served@;
    assert forall|m: Seq<char>| #[trigger] listed(served, m) <==> exists|i: int|
        0 <= i < j + 1 && (#[trigger] exits[i]).market_id@ == m by {
        lemma_listed_with(t.before.served@, exits[j].market_id@, served, m);
        if listed(t.before.served@, m) {
            let i = choose|i: int| 0 <= i < j && (#[trigger] exits[i]).market_id@ == m;
            assert(exits[i].market_id@ == m);
        }
        if m == exits[j].market_id@ {
            assert(exits[j].market_id@ == m);
        }
        if exists|i: int| 0 <= i < j + 1 && (#[trigger] exits[i]).market_id@ == m {
            let i = choose|i: int| 0 <= i < j + 1 && (#[trigger] exits[i]).market_id@ == m;
            if i < j {
                assert(exists|i: int| 0 <= i < j && (#[trigger] exits[i]).market_id@ == m);
            }
        }
    }
    assert(served_first(served, exits, j + 1));
    assert(listed(served, exits[j].market_id@));
    assert(served.len() > 0);
    assert(lapsed(served, f.handover_age).0 == served);
    assert forall|i: int| 0 <= i < j + 1 implies listed(
        served,
        exits[#[trigger] open[i]].market_id@,
    ) by {
        assert(exits[i].market_id@ == exits[i].market_id@);
    }
    lemma_first_unserved_skip(open, exits, served, j + 1);
    let rest = open.skip(j + 1);
    if j + 1 < n {
        assert(rest[0] == j + 1);
        assert(!listed(served, exits[j + 1].market_id@)) by {
            if listed(served, exits[j + 1].market_id@) {
                let i = choose|i: int|
                    0 <= i < j + 1 && (#[trigger] exits[i]).market_id@ == exits[j + 1].market_id@;
                assert(exits[i].market_id@ != exits[j + 1].market_id@);
            }
        }
        assert(first_unserved(open, exits, served) == Some(j + 1));
    } else {
        assert(rest.len() == 0);
        assert(first_unserved(open, exits, served) is None);
        assert(open[0] == 0);
    }
}

/// The slot goes round all candidates in their order: where each of them in turn
/// has held it too long, is asked by a call of `target` to give it up, and a
/// second call chooses, that one chooses the next, and after the last the first
/// again. The candidates stay admitted all along.
pub proof fn law_the_slot_goes_round_by_calls(turns: Seq<Round>, exits: Seq<Exit>, j: int)
    requires
        rounds(turns, exits),
        markets_differ(exits),
        0 <= j < turns.len(),
        turns[0].before.served@.len() == 0,
        turns[0].before.parked@.len() == 0,
        all_ripe(turns[0].before.debounce.seen@, exits, turns[0].asked_at.0),
    ensures
        turns[j].answer(exits) == Pick::Candidate(if j + 1 < exits.len() {
            j + 1
        } else {
            0
        }),
        j + 1 < exits.len() ==> served_first(turns[j].chosen.served@, exits, j + 1),
        turns[j].chosen.parked@.len() == 0,
        all_ripe(turns[j].chosen.debounce.seen@, exits, turns[j].chosen_at.0),
    decreases j,
{
    let t = turns[j];
    if j == 0 {
        assert(served_first(t.before.served@, exits, 0));
    } else {
        law_the_slot_goes_round_by_calls(turns, exits, j - 1);
        assert(resumes(turns, j));
        assert forall|k: int| 0 <= k < exits.len() implies ripe(
            t.before.debounce.seen@,
            #[trigger] exits[k],
            t.asked_at.0,
        ) by {
            assert(ripe(turns[j - 1].chosen.debounce.seen@, exits[k], turns[j - 1].chosen_at.0));
        }
    }
    lemma_round(t, exits, j);
}

/// The lap and its age after `n` selections in which nothing rested.
pub open spec fn lap_after(served: Seq<String>, age: u32, n: nat) -> (Seq<String>, int)
    decreases n,
{
    if n == 0 {
        (served, age as int)
    } else {
        let (s, a) = lap_after(served, age, (n - 1) as nat);
        lapsed(s, a as u32)
    }
}

/// A hand-over is bounded: from a fresh lap the market that was left out
/// longest stays out for its budget of selections, and comes back with the
/// next one.
pub proof fn law_a_hand_over_lapses_after_its_budget(served: Seq<String>)
    requires
        served.len() > 0,
    ensures
        lap_after(served, 0, HANDOVER_CYCLES as nat) == (served, HANDOVER_CYCLES as int),
        lap_after(served, 0, (HANDOVER_CYCLES + 1) as nat) == (served.drop_first(), 0int),
{
    reveal_with_fuel(lap_after, 5);
}

/// A market that is worked is released as soon as nothing of ours can rest
/// there: with no exit resting only the markets that cannot be addressed are
/// worked.
pub proof fn law_a_finished_exit_releases_its_market(live: Live, market: Seq<char>)
    requires
        live.resting is None,
    ensures
        live.works(None, market) <==> listed(live.unaddressable@, market),
{
}

} // verus!
