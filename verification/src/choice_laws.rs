//! Which candidate is worked, for how long, and what is asked for it.
use crate::assoc::lookup;
use crate::board::{view_refusal, Board, MarketSide};
use crate::cycle::asks;
use crate::debounce::{
    admitted, history, law_a_candidate_is_admitted_after_an_unbroken_run, run, Scan, Seen,
};
use crate::decide::{yielded_at, Exit};
use crate::decimal::fraction_of;
use crate::keys::{
    age_rank, be_bytes, lot_bytes, older, opened_later, same_terms,
};
use crate::live::{
    first_unserved, gate_moves, lapsed, open_at, parked_at, pick, waiters, Live, Park, Pick,
};
use crate::order::Order;
use crate::standoff::{stood_off, StandOff};
use crate::text::{before, listed};
use crate::venue::Shape;
use vstd::prelude::*;

verus! {

// ---------------------------------------------------------------- the choice

proof fn lemma_open(
    at: Seq<int>,
    exits: Seq<Exit>,
    parked: Seq<(String, Park)>,
    now: u64,
    n: nat,
)
    requires
        n <= at.len(),
    ensures
        ({
            let open = open_at(at, exits, parked, now, n);
            &&& forall|i: int|
                0 <= i < open.len() ==> exists|j: int|
                    0 <= j < n && at[j] == #[trigger] open[i] && !parked_at(
                        parked,
                        exits[at[j]].market_id@,
                        now,
                    )
            &&& forall|j: int|
                0 <= j < n && !parked_at(parked, exits[#[trigger] at[j]].market_id@, now)
                    ==> open.contains(at[j])
        }),
    decreases n,
{
    if n > 0 {
        lemma_open(at, exits, parked, now, (n - 1) as nat);
        let was = open_at(at, exits, parked, now, (n - 1) as nat);
        let open = open_at(at, exits, parked, now, n);
        assert forall|i: int| 0 <= i < open.len() implies exists|j: int|
            0 <= j < n && at[j] == #[trigger] open[i] && !parked_at(
                parked,
                exits[at[j]].market_id@,
                now,
            ) by {
            if i < was.len() {
                assert(open[i] == was[i]);
                let j = choose|j: int|
                    0 <= j < n - 1 && at[j] == was[i] && !parked_at(
                        parked,
                        exits[at[j]].market_id@,
                        now,
                    );
                assert(at[j] == open[i]);
            } else {
                assert(at[n - 1] == open[i]);
            }
        }
        assert forall|j: int|
            0 <= j < n && !parked_at(
                parked,
                exits[#[trigger] at[j]].market_id@,
                now,
            ) implies open.contains(at[j]) by {
            if j < n - 1 {
                let k = choose|k: int| 0 <= k < was.len() && was[k] == at[j];
                assert(open[k] == at[j]);
            } else {
                assert(open[open.len() - 1] == at[j]);
            }
        }
    }
}

/// A candidate is chosen exactly where nothing is naked, nothing rests, and one of
/// those that are held is on a market that is not left alone; and it is such a
/// one.
pub proof fn law_a_candidate_is_chosen_where_one_is_open(
    live: Live,
    at: Seq<int>,
    exits: Seq<Exit>,
    now: u64,
    outstanding: u64,
)
    ensures
        pick(live, at, exits, now, outstanding) is Candidate <==> {
            &&& outstanding == 0
            &&& live.resting is None
            &&& exists|j: int|
                0 <= j < at.len() && !parked_at(
                    live.parked@,
                    exits[#[trigger] at[j]].market_id@,
                    now,
                )
        },
        pick(live, at, exits, now, outstanding) matches Pick::Candidate(k) ==> exists|j: int|
            0 <= j < at.len() && #[trigger] at[j] == k && !parked_at(
                live.parked@,
                exits[k].market_id@,
                now,
            ),
{
    let open = open_at(at, exits, live.parked@, now, at.len());
    lemma_open(at, exits, live.parked@, now, at.len());
    if exists|j: int|
        0 <= j < at.len() && !parked_at(live.parked@, exits[#[trigger] at[j]].market_id@, now) {
        let j = choose|j: int|
            0 <= j < at.len() && !parked_at(live.parked@, exits[#[trigger] at[j]].market_id@, now);
        assert(open.contains(at[j]));
    }
    if open.len() > 0 {
        let served = lapsed(live.served@, live.handover_age).0;
        lemma_unserved(open, exits, served);
        let i = match first_unserved(open, exits, served) {
            Some(k) => choose|i: int| 0 <= i < open.len() && open[i] == k,
            None => 0,
        };
        let k = open[i];
        let j = choose|j: int|
            0 <= j < at.len() && at[j] == open[i] && !parked_at(
                live.parked@,
                exits[at[j]].market_id@,
                now,
            );
        assert(at[j] == k);
    }
}

proof fn lemma_unserved(open: Seq<int>, exits: Seq<Exit>, served: Seq<String>)
    ensures
        first_unserved(open, exits, served) matches Some(k) ==> open.contains(k),
    decreases open.len(),
{
    if open.len() > 0 {
        let rest = open.drop_first();
        lemma_unserved(rest, exits, served);
        if !listed(served, exits[open[0]].market_id@) {
            assert(open[0] == open[0]);
        } else if let Some(k) = first_unserved(rest, exits, served) {
            let i = choose|i: int| 0 <= i < rest.len() && rest[i] == k;
            assert(open[i + 1] == k);
        }
    }
}

proof fn lemma_waiters(
    at: Seq<int>,
    exits: Seq<Exit>,
    parked: Seq<(String, Park)>,
    incumbent: Seq<char>,
    now: u64,
    n: nat,
)
    requires
        n <= at.len(),
    ensures
        waiters(at, exits, parked, incumbent, now, n) > 0 <==> exists|j: int|
            0 <= j < n && exits[#[trigger] at[j]].market_id@ != incumbent && !parked_at(
                parked,
                exits[at[j]].market_id@,
                now,
            ),
    decreases n,
{
    if n > 0 {
        lemma_waiters(at, exits, parked, incumbent, now, (n - 1) as nat);
        let e = exits[at[n - 1]];
        if waiters(at, exits, parked, incumbent, now, (n - 1) as nat) > 0 {
            let j = choose|j: int|
                0 <= j < n - 1 && exits[#[trigger] at[j]].market_id@ != incumbent && !parked_at(
                    parked,
                    exits[at[j]].market_id@,
                    now,
                );
            assert(exits[at[j]].market_id@ != incumbent);
        }
    }
}

/// An exit that rests is asked to give up the slot exactly where it has held it
/// for more than an hour and another candidate that is held, on another market
/// that is not left alone, could use it.
pub proof fn law_an_exit_gives_up_the_slot_after_an_hour(
    before: Live,
    after: Live,
    at: Seq<int>,
    exits: Seq<Exit>,
    now: u64,
    since: u64,
    market: Seq<char>,
)
    requires
        before.resting matches Some(r) && r.since == since && r.order.market@ == market,
        gate_moves(before, after, at, exits, now, 0),
    ensures
        after.rotate is Some <==> {
            &&& now > since + 3_600_000_000_000
            &&& exists|j: int|
                0 <= j < at.len() && exits[#[trigger] at[j]].market_id@ != market && !parked_at(
                    before.parked@,
                    exits[at[j]].market_id@,
                    now,
                )
        },
        after.rotate matches Some(x) ==> x.market@ == market && listed(after.served@, market),
        after.rotate is None ==> after.served == before.served,
{
    lemma_waiters(at, exits, before.parked@, market, now, at.len());
}

/// A market is left alone until its time is over, and from then on no more.
pub proof fn law_a_park_lasts_until_its_time(
    parked: Seq<(String, Park)>,
    market: Seq<char>,
    now: u64,
    later: u64,
)
    requires
        now <= later,
    ensures
        parked_at(parked, market, later) ==> parked_at(parked, market, now),
        lookup(parked, market) is None ==> !parked_at(parked, market, now),
        lookup(parked, market) matches Some(p) ==> (parked_at(parked, market, now) <==> now
            < p.until),
{
}

/// The markets that are worked are those on which an order of ours may rest, the
/// one on which it does, and the one on which it is about to.
pub proof fn law_a_worked_market_has_an_order(live: Live, extra: Option<&str>, market: Seq<char>)
    ensures
        live.resting matches Some(r) ==> live.works(extra, r.order.market@),
        extra matches Some(m) ==> live.works(extra, m@),
        listed(live.unaddressable@, market) ==> live.works(extra, market),
        live.works(extra, market) ==> listed(live.unaddressable@, market) || (live.resting matches
            Some(r) && r.order.market@ == market) || (extra matches Some(m) && m@ == market),
{
}

/// For a candidate the quoters are asked to yield the Kalshi asks and the PM-US
/// bids, on which its exit may rest; the other side of both books, where crossing
/// is allowed; and what the exit that rests now occupies. Nothing else.
pub proof fn law_a_cycle_asks_for_the_sides_it_may_meet(
    live: Live,
    k: Seq<char>,
    pm: Seq<char>,
    market: Seq<char>,
    side: Seq<char>,
)
    ensures
        asks(live, k, pm, (market, side)) <==> {
            ||| market == k && side == "ask"@
            ||| market == pm && side == "bid"@
            ||| live.take_ok && market == k && side == "bid"@
            ||| live.take_ok && market == pm && side == "ask"@
            ||| (live.resting matches Some(r) && r.order.shape == Shape::RestKalshi && market
                == r.order.market@ && side == "ask"@)
            ||| (live.resting matches Some(r) && r.order.shape == Shape::RestPmUs && market
                == r.order.pm_market@ && side == "bid"@)
        },
{
}

/// A candidate is admitted exactly where the scan ends an unbroken run of three
/// scans or more that hold it, the first of them two minutes ago or longer.
pub proof fn law_a_candidate_holds_for_three_scans_and_two_minutes(
    scans: Seq<Scan>,
    states: Seq<Seq<Seen>>,
    n: int,
    k: int,
)
    requires
        history(scans, states),
        0 <= n < scans.len(),
        0 <= k < scans[n].exits.len(),
    ensures
        ({
            let length = run(scans, (n + 1) as nat, scans[n].exits[k]);
            &&& 1 <= length <= n + 1
            &&& admitted(states[n], scans[n].exits, scans[n].now).contains(k) <==> length >= 3
                && scans[n].now - scans[n + 1 - length].now >= 120_000_000_000
        }),
{
    law_a_candidate_is_admitted_after_an_unbroken_run(scans, states, n, k);
}

/// A market that gave up the slot is left out for three selections, and with the
/// fourth it comes back.
pub proof fn law_a_market_is_left_out_for_three_selections(served: Seq<String>, age: u32)
    requires
        served.len() > 0,
    ensures
        age < 3 ==> lapsed(served, age) == (served, age + 1),
        age >= 3 ==> lapsed(served, age) == (served.drop_first(), 0int),
{
}

// ------------------------------------------------------- how long it is known

/// The engine's view is believed for three minutes.
pub proof fn law_a_view_is_believed_for_three_minutes(b: Board, now: u64)
    ensures
        view_refusal(b, now) is None <==> b.view is Some && now <= b.at + 180_000_000_000,
{
}

/// Once armed, an order is let through only where the markets that are worked
/// were published in the last three minutes and its own is not one of them.
pub proof fn law_a_stand_off_is_believed_for_three_minutes(
    s: StandOff,
    market: Seq<char>,
    now: u64,
)
    ensures
        stood_off(s, market, now) is None <==> (!s.armed || (s.markets matches Some(m) && now
            <= s.at + 180_000_000_000 && !listed(m@, market))),
{
}

// -------------------------------------------------------------- what is older

/// Of two times after the epoch the one with the smaller bits is the earlier one;
/// a time before the epoch is earlier than one after it, and of two of them the
/// one with the larger bits is the earlier.
pub proof fn law_times_are_told_apart_by_their_bits(a: u64, b: u64)
    ensures
        a < 0x8000_0000_0000_0000 && b < 0x8000_0000_0000_0000 ==> (age_rank(a) < age_rank(b) <==> a
            < b),
        a >= 0x8000_0000_0000_0000 && b >= 0x8000_0000_0000_0000 ==> (age_rank(a) < age_rank(b)
            <==> b < a),
        a >= 0x8000_0000_0000_0000 && b < 0x8000_0000_0000_0000 ==> age_rank(a) < age_rank(b),
        age_rank(a) == age_rank(b) <==> a == b,
        a <= 0x7ff0_0000_0000_0000 && b <= 0x7ff0_0000_0000_0000 ==> (opened_later(a, b) <==> a
            > b),
{
}

/// Of two lots that were opened after the epoch the one that was opened first is
/// the older, and of two that were opened together the one whose name comes first.
pub proof fn law_the_lot_that_was_opened_first_is_the_older(a: Order, b: Order)
    requires
        a.closes_ts < 0x8000_0000_0000_0000,
        b.closes_ts < 0x8000_0000_0000_0000,
    ensures
        a.closes_ts < b.closes_ts ==> older(a, b) && !older(b, a),
        a.closes_ts == b.closes_ts ==> (older(a, b) <==> before(a.rel_id@, b.rel_id@)),
{
}

/// Orders on the same terms trade on the same markets, the same way round, with
/// the same leg resting, at the same price; and one that crosses shares its terms
/// with no other lot.
pub proof fn law_the_same_terms_are_the_same_trade(
    a: Order,
    b: Order,
    x: (int, int),
    y: (int, int),
)
    requires
        fraction_of(a.limit@) == Some(x),
        fraction_of(b.limit@) == Some(y),
    ensures
        same_terms(a, b) <==> {
            &&& a.market@ == b.market@ && a.pm_market@ == b.pm_market@
            &&& a.shape == b.shape && a.direction == b.direction
            &&& x.0 * y.1 == y.0 * x.1
            &&& a.cross is Some == b.cross is Some
            &&& a.cross is Some ==> a.closes_ts == b.closes_ts
        },
{
}

/// The bytes of a number spell it, so two lots of one name have different bytes
/// to be told apart by.
pub proof fn law_the_bytes_of_a_number_spell_it(n: u64)
    ensures
        ({
            let b = be_bytes(n);
            &&& b.len() == 8
            &&& n == ((((((b[0] * 256 + b[1]) * 256 + b[2]) * 256 + b[3]) * 256 + b[4]) * 256
                + b[5]) * 256 + b[6]) * 256 + b[7]
        }),
{
    let m = n as int;
    lemma_peel(m, 1);
    lemma_peel(m, 0x100);
    lemma_peel(m, 0x1_0000);
    lemma_peel(m, 0x100_0000);
    lemma_peel(m, 0x1_0000_0000);
    lemma_peel(m, 0x100_0000_0000);
    lemma_peel(m, 0x1_0000_0000_0000);
    lemma_peel(m, 0x100_0000_0000_0000);
    assert(m / 0x1_0000_0000_0000_0000 == 0);
    lemma_bytes(n);
}

/// A quotient, of its quotient by one byte more and the byte.
proof fn lemma_peel(n: int, d: int)
    requires
        n >= 0,
        d > 0,
    ensures
        n / d == (n / (d * 256)) * 256 + n / d % 256,
{
    vstd::arithmetic::div_mod::lemma_div_denominator(n, d, 256);
    vstd::arithmetic::div_mod::lemma_fundamental_div_mod(n / d, 256);
}

/// The bytes of a number are whole bytes.
proof fn lemma_bytes(n: u64)
    ensures
        be_bytes(n)[0] as int == n as int / 0x100_0000_0000_0000 % 256,
        be_bytes(n)[1] as int == n as int / 0x1_0000_0000_0000 % 256,
        be_bytes(n)[2] as int == n as int / 0x100_0000_0000 % 256,
        be_bytes(n)[3] as int == n as int / 0x1_0000_0000 % 256,
        be_bytes(n)[4] as int == n as int / 0x100_0000 % 256,
        be_bytes(n)[5] as int == n as int / 0x1_0000 % 256,
        be_bytes(n)[6] as int == n as int / 0x100 % 256,
        be_bytes(n)[7] as int == n as int % 256,
{
}

/// Lots of one name that were opened at different times have different bytes.
pub proof fn law_lots_are_told_apart_by_their_time(rel: Seq<char>, a: u64, b: u64)
    ensures
        lot_bytes(rel, a) == lot_bytes(rel, b) <==> a == b,
{
    law_the_bytes_of_a_number_spell_it(a);
    law_the_bytes_of_a_number_spell_it(b);
    let (x, y) = (lot_bytes(rel, a), lot_bytes(rel, b));
    if x == y {
        let n = vstd::utf8::encode_utf8(rel).len() as int;
        assert(be_bytes(a) =~= x.subrange(n, n + 8));
        assert(be_bytes(b) =~= y.subrange(n, n + 8));
    }
}

/// A side was yielded when its first entry says.
pub proof fn law_a_side_was_yielded_when_its_first_entry_says(
    m: Seq<(MarketSide, u64)>,
    market: Seq<char>,
    side: Seq<char>,
    i: int,
)
    requires
        0 <= i < m.len(),
        m[i].0.0@ == market && m[i].0.1@ == side,
        forall|j: int|
            0 <= j < i ==> !((#[trigger] m[j]).0.0@ == market && m[j].0.1@ == side),
    ensures
        yielded_at(m, (market, side)) == Some(m[i].1),
    decreases i,
{
    if i > 0 {
        assert(!(m[0].0.0@ == market && m[0].0.1@ == side));
        let rest = m.drop_first();
        assert forall|j: int| 0 <= j < i - 1 implies !((#[trigger] rest[j]).0.0@ == market
            && rest[j].0.1@ == side) by {
            assert(rest[j] == m[j + 1]);
        }
        law_a_side_was_yielded_when_its_first_entry_says(rest, market, side, i - 1);
    }
}

/// A side that has no entry was not yielded.
pub proof fn law_a_side_without_an_entry_was_not_yielded(
    m: Seq<(MarketSide, u64)>,
    market: Seq<char>,
    side: Seq<char>,
)
    requires
        forall|j: int|
            0 <= j < m.len() ==> !((#[trigger] m[j]).0.0@ == market && m[j].0.1@ == side),
    ensures
        yielded_at(m, (market, side)) is None,
    decreases m.len(),
{
    if m.len() > 0 {
        assert(!(m[0].0.0@ == market && m[0].0.1@ == side));
        let rest = m.drop_first();
        assert forall|j: int| 0 <= j < rest.len() implies !((#[trigger] rest[j]).0.0@ == market
            && rest[j].0.1@ == side) by {
            assert(rest[j] == m[j + 1]);
        }
        law_a_side_without_an_entry_was_not_yielded(rest, market, side);
    }
}

} // verus!
