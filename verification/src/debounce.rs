//! The debounce: a candidate is worked only after it has been selected without
//! a break for long enough, across enough scans.
use crate::decide::Exit;
use crate::text::same;
use vstd::prelude::*;

verus! {

/// How often the exit cycle runs, in seconds.
pub const CYCLE_S: u64 = 60;

/// Scans across which a candidate must hold.
pub const DEBOUNCE_SCANS: u32 = 3;

/// How long a candidate must hold, in seconds: the time that its scans take.
pub const DEBOUNCE_S: u64 = 120;

/// The same, in nanoseconds.
pub const DEBOUNCE_NS: i128 = 120_000_000_000;

/// One candidate that the last scan held.
#[derive(Debug)]
pub struct Seen {
    pub rel_id: String,
    /// When its lot was opened, as the bits of its seconds.
    pub opened_ts: u64,
    /// When it was first seen without a break since, in nanoseconds.
    pub first: u64,
    /// Scans since then.
    pub scans: u32,
}

/// How long each candidate has been selected without a break, and over how
/// many scans. A candidate is known by its relationship and its lot.
#[derive(Debug)]
pub struct Debounce {
    pub seen: Vec<Seen>,
}

/// Whether an entry is about a candidate.
pub open spec fn about(s: Seen, e: Exit) -> bool {
    s.rel_id@ == e.rel_id@ && s.opened_ts == e.opened_ts
}

/// What is known of a candidate.
pub open spec fn known(seen: Seq<Seen>, e: Exit) -> Option<(u64, u32)>
    decreases seen.len(),
{
    if seen.len() == 0 {
        None
    } else if about(seen[0], e) {
        Some((seen[0].first, seen[0].scans))
    } else {
        known(seen.drop_first(), e)
    }
}

/// What is known of a candidate after a scan that holds it.
pub open spec fn counted(seen: Seq<Seen>, e: Exit, now: u64) -> (u64, u32) {
    match known(seen, e) {
        Some((first, scans)) => (
            first,
            if scans < u32::MAX {
                (scans + 1) as u32
            } else {
                scans
            },
        ),
        None => (now, 1),
    }
}

/// Whether a candidate has held long enough with this scan.
pub open spec fn ripe(seen: Seq<Seen>, e: Exit, now: u64) -> bool {
    let (first, scans) = counted(seen, e, now);
    now - first >= DEBOUNCE_NS && scans >= DEBOUNCE_SCANS
}

/// The places of those among the first `n` candidates that have held long
/// enough, in order.
pub open spec fn ripe_at(seen: Seq<Seen>, exits: Seq<Exit>, now: u64, n: nat) -> Seq<int>
    decreases n,
{
    if n == 0 {
        Seq::empty()
    } else {
        let before = ripe_at(seen, exits, now, (n - 1) as nat);
        if ripe(seen, exits[n - 1], now) {
            before.push(n - 1)
        } else {
            before
        }
    }
}

/// The places of the candidates that a scan admits.
pub open spec fn admitted(seen: Seq<Seen>, exits: Seq<Exit>, now: u64) -> Seq<int> {
    ripe_at(seen, exits, now, exits.len())
}

/// Whether the entries after a scan are the candidates that it held, each with
/// its count, and nothing else.
pub open spec fn folded(seen: Seq<Seen>, exits: Seq<Exit>, now: u64, after: Seq<Seen>) -> bool {
    &&& after.len() == exits.len()
    &&& forall|i: int|
        0 <= i < exits.len() ==> {
            &&& about(#[trigger] after[i], exits[i])
            &&& (after[i].first, after[i].scans) == counted(seen, exits[i], now)
        }
}

proof fn lemma_known_skip(seen: Seq<Seen>, e: Exit, k: int)
    requires
        0 <= k <= seen.len(),
        forall|i: int| 0 <= i < k ==> !about(#[trigger] seen[i], e),
    ensures
        known(seen, e) == known(seen.skip(k), e),
    decreases k,
{
    if k == 0 {
        assert(seen.skip(0) =~= seen);
    } else {
        assert(!about(seen[0], e));
        let rest = seen.drop_first();
        assert forall|i: int| 0 <= i < k - 1 implies !about(#[trigger] rest[i], e) by {
            assert(rest[i] == seen[i + 1]);
        }
        lemma_known_skip(rest, e, k - 1);
        assert(rest.skip(k - 1) =~= seen.skip(k));
    }
}

proof fn lemma_ripe_at(seen: Seq<Seen>, exits: Seq<Exit>, now: u64, n: nat)
    requires
        n <= exits.len(),
    ensures
        forall|i: int|
            0 <= i < ripe_at(seen, exits, now, n).len() ==> 0 <= (#[trigger] ripe_at(
                seen,
                exits,
                now,
                n,
            )[i]) < n && ripe(seen, exits[ripe_at(seen, exits, now, n)[i]], now),
        ripe_at(seen, exits, now, n).len() <= n,
    decreases n,
{
    if n > 0 {
        lemma_ripe_at(seen, exits, now, (n - 1) as nat);
    }
}

impl Debounce {
    pub fn new() -> (r: Debounce)
        ensures
            r.seen@ == Seq::<Seen>::empty(),
    {
        Debounce { seen: Vec::new() }
    }

    fn look(&self, e: &Exit) -> (r: Option<(u64, u32)>)
        ensures
            r == known(self.seen@, *e),
    {
        let mut i: usize = 0;
        while i < self.seen.len()
            invariant
                i <= self.seen.len(),
                forall|j: int| 0 <= j < i ==> !about(#[trigger] self.seen@[j], *e),
            decreases self.seen.len() - i,
        {
            let s: &Seen = &self.seen[i];
            if same(s.rel_id.as_str(), e.rel_id.as_str()) && s.opened_ts == e.opened_ts {
                proof {
                    lemma_known_skip(self.seen@, *e, i as int);
                    assert(self.seen@.skip(i as int)[0] == self.seen@[i as int]);
                }
                return Some((s.first, s.scans));
            }
            i = i + 1;
        }
        proof {
            lemma_known_skip(self.seen@, *e, i as int);
        }
        None
    }

    /// Folds one scan in, and gives the places of the candidates that have now
    /// held long enough.
    pub fn fold(&mut self, exits: &Vec<Exit>, now: u64) -> (r: Vec<usize>)
        ensures
            folded(old(self).seen@, exits@, now, final(self).seen@),
            r@.len() == admitted(old(self).seen@, exits@, now).len(),
            forall|i: int|
                0 <= i < r@.len() ==> (#[trigger] r@[i]) == admitted(
                    old(self).seen@,
                    exits@,
                    now,
                )[i] && r@[i] < exits@.len(),
    {
        let ghost before = self.seen@;
        let mut next: Vec<Seen> = Vec::new();
        let mut out: Vec<usize> = Vec::new();
        let mut i: usize = 0;
        while i < exits.len()
            invariant
                i <= exits.len(),
                self.seen@ == before,
                next@.len() == i,
                forall|j: int|
                    0 <= j < i ==> {
                        &&& about(#[trigger] next@[j], exits@[j])
                        &&& (next@[j].first, next@[j].scans) == counted(before, exits@[j], now)
                    },
                out@.len() == ripe_at(before, exits@, now, i as nat).len(),
                forall|j: int|
                    0 <= j < out@.len() ==> (#[trigger] out@[j]) == ripe_at(
                        before,
                        exits@,
                        now,
                        i as nat,
                    )[j] && out@[j] < i,
            decreases exits.len() - i,
        {
            let e: &Exit = &exits[i];
            let (first, scans): (u64, u32) = match self.look(e) {
                Some((f, n)) => (
                    f,
                    if n < u32::MAX {
                        n + 1
                    } else {
                        n
                    },
                ),
                None => (now, 1),
            };
            next.push(Seen { rel_id: e.rel_id.clone(), opened_ts: e.opened_ts, first, scans });
            if (now as i128) - (first as i128) >= DEBOUNCE_NS && scans >= DEBOUNCE_SCANS {
                out.push(i);
            }
            i = i + 1;
        }
        self.seen = next;
        out
    }

    /// Folds one scan in, and gives the candidates that have now held long
    /// enough, in the order in which they were given.
    pub fn admit_held<'a>(&mut self, exits: &'a Vec<Exit>, now: u64) -> (r: Vec<&'a Exit>)
        ensures
            folded(old(self).seen@, exits@, now, final(self).seen@),
            r@.len() == admitted(old(self).seen@, exits@, now).len(),
            forall|i: int|
                0 <= i < r@.len() ==> *(#[trigger] r@[i]) == exits@[admitted(
                    old(self).seen@,
                    exits@,
                    now,
                )[i]],
    {
        let at: Vec<usize> = self.fold(exits, now);
        let mut out: Vec<&'a Exit> = Vec::new();
        let mut i: usize = 0;
        while i < at.len()
            invariant
                i <= at.len(),
                out@.len() == i,
                forall|j: int| 0 <= j < at@.len() ==> (#[trigger] at@[j]) < exits@.len(),
                forall|j: int| 0 <= j < i ==> *(#[trigger] out@[j]) == exits@[at@[j] as int],
            decreases at.len() - i,
        {
            out.push(&exits[at[i]]);
            i = i + 1;
        }
        out
    }

    /// How long a candidate has held, in nanoseconds; `None` where it is not
    /// known.
    pub fn held_ns(&self, e: &Exit, now: u64) -> (r: Option<i128>)
        ensures
            r == (match known(self.seen@, *e) {
                Some((first, _)) => Some((now - first) as i128),
                None => None,
            }),
    {
        match self.look(e) {
            Some((first, _)) => Some((now as i128) - (first as i128)),
            None => None,
        }
    }
}

// --------------------------------------------------------------------- laws

/// What a scan does not hold is forgotten outright.
pub proof fn law_an_absent_candidate_is_forgotten(
    seen: Seq<Seen>,
    exits: Seq<Exit>,
    now: u64,
    after: Seq<Seen>,
    e: Exit,
)
    requires
        folded(seen, exits, now, after),
        forall|i: int|
            0 <= i < exits.len() ==> (#[trigger] exits[i]).rel_id@ != e.rel_id@
                || exits[i].opened_ts != e.opened_ts,
    ensures
        known(after, e) is None,
        counted(after, e, now) == (now, 1u32),
{
    assert forall|i: int| 0 <= i < after.len() implies !about(#[trigger] after[i], e) by {
        assert(about(after[i], exits[i]));
    }
    lemma_known_skip(after, e, after.len() as int);
}

/// A candidate that is new to a scan is not admitted by it.
pub proof fn law_a_first_sighting_is_never_enough(seen: Seq<Seen>, e: Exit, now: u64)
    requires
        known(seen, e) is None,
    ensures
        !ripe(seen, e, now),
{
}

/// Neither the clock nor the number of scans is enough alone.
pub proof fn law_both_the_clock_and_the_scans_bind(seen: Seq<Seen>, e: Exit, now: u64)
    requires
        ripe(seen, e, now),
    ensures
        known(seen, e) matches Some((first, scans)) && now - first >= DEBOUNCE_NS && scans
            >= DEBOUNCE_SCANS - 1,
{
}

/// One lot's persistence does not admit another lot on the same relationship:
/// what is known of a candidate is about its own lot.
pub proof fn law_the_lot_is_the_key(seen: Seq<Seen>, e: Exit)
    requires
        known(seen, e) is Some,
    ensures
        exists|i: int| 0 <= i < seen.len() && about(#[trigger] seen[i], e),
    decreases seen.len(),
{
    if about(seen[0], e) {
        assert(about(seen[0], e));
    } else {
        law_the_lot_is_the_key(seen.drop_first(), e);
        let i = choose|i: int|
            0 <= i < seen.drop_first().len() && about(#[trigger] seen.drop_first()[i], e);
        assert(about(seen[i + 1], e));
    }
}

/// Every candidate that a scan admits was among those given to it.
pub proof fn law_admitted_candidates_were_given(seen: Seq<Seen>, exits: Seq<Exit>, now: u64, i: int)
    requires
        0 <= i < admitted(seen, exits, now).len(),
    ensures
        0 <= admitted(seen, exits, now)[i] < exits.len(),
        ripe(seen, exits[admitted(seen, exits, now)[i]], now),
{
    lemma_ripe_at(seen, exits, now, exits.len());
}

/// One scan: what it held, and when it was.
pub struct Scan {
    pub exits: Seq<Exit>,
    pub now: u64,
}

/// Whether two candidates are the same: of one relationship and one lot.
pub open spec fn same_lot(a: Exit, b: Exit) -> bool {
    a.rel_id@ == b.rel_id@ && a.opened_ts == b.opened_ts
}

/// Whether a scan holds a candidate.
pub open spec fn holds(scan: Scan, e: Exit) -> bool {
    exists|i: int| 0 <= i < scan.exits.len() && same_lot(#[trigger] scan.exits[i], e)
}

/// How many of the first `n` scans, up to the last of them and without a break,
/// hold a candidate.
pub open spec fn run(scans: Seq<Scan>, n: nat, e: Exit) -> nat
    decreases n,
{
    if n == 0 || !holds(scans[n - 1], e) {
        0
    } else {
        1 + run(scans, (n - 1) as nat, e)
    }
}

/// Whether the entries are those of a debounce that started with none and folded
/// the scans in, one after the other.
pub open spec fn history(scans: Seq<Scan>, states: Seq<Seq<Seen>>) -> bool {
    &&& states.len() == scans.len() + 1
    &&& states[0].len() == 0
    &&& forall|i: int| 0 <= i < scans.len() ==> #[trigger] followed(scans, states, i)
}

/// Whether the entries after a scan are what it makes of those before it.
pub open spec fn followed(scans: Seq<Scan>, states: Seq<Seq<Seen>>, i: int) -> bool {
    folded(states[i], scans[i].exits, scans[i].now, states[i + 1])
}

/// A count that stops at the largest that is kept.
pub open spec fn capped(n: nat) -> u32 {
    if n < u32::MAX {
        n as u32
    } else {
        u32::MAX
    }
}

proof fn lemma_known_at(seen: Seq<Seen>, e: Exit, k: int)
    requires
        0 <= k < seen.len(),
        about(seen[k], e),
        forall|i: int| 0 <= i < k ==> !about(#[trigger] seen[i], e),
    ensures
        known(seen, e) == Some((seen[k].first, seen[k].scans)),
{
    lemma_known_skip(seen, e, k);
    assert(seen.skip(k)[0] == seen[k]);
}

/// What is known of a candidate after a scan.
proof fn lemma_known_after(seen: Seq<Seen>, scan: Scan, after: Seq<Seen>, e: Exit)
    requires
        folded(seen, scan.exits, scan.now, after),
    ensures
        known(after, e) == (if holds(scan, e) {
            Some(counted(seen, e, scan.now))
        } else {
            None
        }),
    decreases scan.exits.len(),
{
    let exits = scan.exits;
    if holds(scan, e) {
        let k = lemma_first_about(after, exits, e, 0);
        lemma_known_at(after, e, k);
        assert(about(after[k], exits[k]));
        lemma_counted_same(seen, exits[k], e, scan.now);
    } else {
        assert forall|i: int| 0 <= i < after.len() implies !about(#[trigger] after[i], e) by {
            assert(about(after[i], exits[i]));
            if about(after[i], e) {
                assert(same_lot(exits[i], e));
            }
        }
        lemma_known_skip(after, e, after.len() as int);
    }
}

proof fn lemma_first_about(after: Seq<Seen>, exits: Seq<Exit>, e: Exit, from: int) -> (k: int)
    requires
        after.len() == exits.len(),
        forall|i: int| 0 <= i < exits.len() ==> about(#[trigger] after[i], exits[i]),
        0 <= from <= exits.len(),
        forall|i: int| 0 <= i < from ==> !about(#[trigger] after[i], e),
        exists|i: int| 0 <= i < exits.len() && same_lot(#[trigger] exits[i], e),
    ensures
        from <= k < after.len(),
        about(after[k], e),
        forall|i: int| 0 <= i < k ==> !about(#[trigger] after[i], e),
    decreases exits.len() - from,
{
    if from == exits.len() {
        let i = choose|i: int| 0 <= i < exits.len() && same_lot(#[trigger] exits[i], e);
        assert(about(after[i], exits[i]));
        assert(about(after[i], e));
        from
    } else if about(after[from], e) {
        from
    } else {
        lemma_first_about(after, exits, e, from + 1)
    }
}

proof fn lemma_known_same(seen: Seq<Seen>, a: Exit, b: Exit)
    requires
        same_lot(a, b),
    ensures
        known(seen, a) == known(seen, b),
    decreases seen.len(),
{
    if seen.len() > 0 {
        lemma_known_same(seen.drop_first(), a, b);
    }
}

proof fn lemma_counted_same(seen: Seq<Seen>, a: Exit, b: Exit, now: u64)
    requires
        same_lot(a, b),
    ensures
        counted(seen, a, now) == counted(seen, b, now),
        ripe(seen, a, now) == ripe(seen, b, now),
{
    lemma_known_same(seen, a, b);
}

proof fn lemma_known_is_the_run(scans: Seq<Scan>, states: Seq<Seq<Seen>>, n: nat, e: Exit)
    requires
        history(scans, states),
        n <= scans.len(),
    ensures
        run(scans, n, e) <= n,
        known(states[n as int], e) == (if run(scans, n, e) == 0 {
            None
        } else {
            Some((scans[n - run(scans, n, e)].now, capped(run(scans, n, e))))
        }),
    decreases n,
{
    if n > 0 {
        let m = (n - 1) as nat;
        lemma_known_is_the_run(scans, states, m, e);
        assert(followed(scans, states, m as int));
        lemma_known_after(states[m as int], scans[m as int], states[n as int], e);
    }
}

/// The places that a scan admits are those of the candidates that have held long
/// enough, in the order in which they were given.
pub proof fn law_admitted_candidates_keep_their_order(seen: Seq<Seen>, exits: Seq<Exit>, now: u64)
    ensures
        forall|k: int| #[trigger]
            admitted(seen, exits, now).contains(k) <==> 0 <= k < exits.len() && ripe(
                seen,
                exits[k],
                now,
            ),
        forall|i: int, j: int|
            0 <= i < j < admitted(seen, exits, now).len() ==> (#[trigger] admitted(
                seen,
                exits,
                now,
            )[i]) < (#[trigger] admitted(seen, exits, now)[j]),
{
    lemma_ripe_places(seen, exits, now, exits.len());
}

proof fn lemma_ripe_places(seen: Seq<Seen>, exits: Seq<Exit>, now: u64, n: nat)
    requires
        n <= exits.len(),
    ensures
        forall|k: int| #[trigger]
            ripe_at(seen, exits, now, n).contains(k) <==> 0 <= k < n && ripe(seen, exits[k], now),
        forall|i: int, j: int|
            0 <= i < j < ripe_at(seen, exits, now, n).len() ==> (#[trigger] ripe_at(
                seen,
                exits,
                now,
                n,
            )[i]) < (#[trigger] ripe_at(seen, exits, now, n)[j]),
    decreases n,
{
    if n > 0 {
        let m = (n - 1) as nat;
        lemma_ripe_places(seen, exits, now, m);
        lemma_ripe_at(seen, exits, now, m);
        let part = ripe_at(seen, exits, now, m);
        let all = ripe_at(seen, exits, now, n);
        if ripe(seen, exits[m as int], now) {
            assert forall|k: int| #[trigger] all.contains(k) <==> 0 <= k < n && ripe(
                seen,
                exits[k],
                now,
            ) by {
                if all.contains(k) {
                    let i = choose|i: int| 0 <= i < all.len() && all[i] == k;
                    if i < part.len() {
                        assert(part[i] == k);
                        assert(part.contains(k));
                    }
                }
                if 0 <= k < n && ripe(seen, exits[k], now) {
                    if k < m {
                        assert(part.contains(k));
                        let i = choose|i: int| 0 <= i < part.len() && part[i] == k;
                        assert(all[i] == k);
                    } else {
                        assert(all[part.len() as int] == k);
                    }
                }
            }
            assert forall|i: int, j: int| 0 <= i < j < all.len() implies (#[trigger] all[i]) < (
            #[trigger] all[j]) by {
                assert(all[i] == part[i]);
                if j < part.len() {
                    assert(all[j] == part[j]);
                }
            }
        }
    }
}

/// A candidate is admitted exactly where the scan ends an unbroken run of enough
/// scans that hold it, the first of which was long enough ago.
pub proof fn law_a_candidate_is_admitted_after_an_unbroken_run(
    scans: Seq<Scan>,
    states: Seq<Seq<Seen>>,
    n: int,
    k: int,
)
    requires
        history(scans, states),
        0 <= n < scans.len(),
        0 <= k < scans[n].exits.len(),
    ensures
        ({
            let e = scans[n].exits[k];
            let length = run(scans, (n + 1) as nat, e);
            &&& 1 <= length <= n + 1
            &&& admitted(states[n], scans[n].exits, scans[n].now).contains(k) <==> length
                >= DEBOUNCE_SCANS && scans[n].now - scans[n + 1 - length].now >= DEBOUNCE_NS
        }),
{
    let e = scans[n].exits[k];
    lemma_known_is_the_run(scans, states, n as nat, e);
    law_admitted_candidates_keep_their_order(states[n], scans[n].exits, scans[n].now);
    assert(same_lot(scans[n].exits[k], e));
    assert(holds(scans[n], e));
    assert(run(scans, (n + 1) as nat, e) == 1 + run(scans, n as nat, e));
}

/// What a scan admits, a later one that holds the same candidates admits too.
pub proof fn law_held_candidates_stay_admitted(
    seen: Seq<Seen>,
    exits: Seq<Exit>,
    now: u64,
    after: Seq<Seen>,
    later: u64,
    k: int,
)
    requires
        folded(seen, exits, now, after),
        now <= later,
        0 <= k < exits.len(),
        ripe(seen, exits[k], now),
    ensures
        ripe(after, exits[k], later),
        admitted(after, exits, later).contains(k),
{
    let scan = Scan { exits, now };
    assert(same_lot(scan.exits[k], exits[k]));
    lemma_known_after(seen, scan, after, exits[k]);
    law_admitted_candidates_keep_their_order(after, exits, later);
}

} // verus!
