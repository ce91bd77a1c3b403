//! One pass over all lots: every lot is priced on its own, those with identical
//! quotes then rest together, and no lot is reserved twice.
use crate::assoc::{find, lookup, put};
use crate::board::EngineView;
use crate::closing::{pay_refusal, still_pays};
use crate::fees::FeeSchedule;
use crate::group::{group_keys_of, texts};
use crate::hedge::tradable;
use crate::keys::{group_key, oldest_first, sort_oldest_first};
use crate::money::qty_ok;
use crate::order::Order;
use crate::text::{
    before, lemma_before_irreflexive, lemma_before_total, lemma_before_transitive, same,
    sorts_before,
};
use vstd::prelude::*;

verus! {

// ------------------------------------------------------------ reservations

/// The keys that the first `n` owners have reserved, one owner after the other.
pub open spec fn all_reserved(owners: Seq<Vec<String>>, n: nat) -> Seq<Seq<char>>
    decreases n,
{
    if n == 0 {
        Seq::empty()
    } else {
        all_reserved(owners, (n - 1) as nat) + texts(owners[n - 1]@)
    }
}

/// Whether no text stands twice.
pub open spec fn unique(keys: Seq<Seq<char>>) -> bool {
    forall|i: int, j: int| 0 <= i < j < keys.len() ==> #[trigger] keys[i] != #[trigger] keys[j]
}

proof fn lemma_all_reserved_prefix(owners: Seq<Vec<String>>, n: nat, m: nat)
    requires
        n <= m,
    ensures
        all_reserved(owners, n).len() <= all_reserved(owners, m).len(),
        forall|i: int|
            0 <= i < all_reserved(owners, n).len() ==> #[trigger] all_reserved(owners, m)[i]
                == all_reserved(owners, n)[i],
    decreases m,
{
    if n < m {
        lemma_all_reserved_prefix(owners, n, (m - 1) as nat);
    }
}

fn stands(keys: &Vec<String>, key: &str) -> (r: bool)
    ensures
        r == exists|i: int| 0 <= i < keys@.len() && #[trigger] texts(keys@)[i] == key@,
{
    let mut i: usize = 0;
    while i < keys.len()
        invariant
            i <= keys.len(),
            forall|k: int| 0 <= k < i ==> #[trigger] texts(keys@)[k] != key@,
        decreases keys.len() - i,
    {
        if same(keys[i].as_str(), key) {
            assert(texts(keys@)[i as int] == key@);
            return true;
        }
        i = i + 1;
    }
    false
}

/// All keys that the owners have reserved; `None` where a lot is reserved
/// twice, on which the pass must not go on.
pub fn reservations(owners: &Vec<Vec<String>>) -> (r: Option<Vec<String>>)
    ensures
        ({
            let all = all_reserved(owners@, owners@.len());
            match r {
                Some(v) => texts(v@) == all && unique(all),
                None => !unique(all),
            }
        }),
{
    let ghost all = all_reserved(owners@, owners@.len());
    let mut out: Vec<String> = Vec::new();
    let mut n: usize = 0;
    assert(texts(out@) =~= all_reserved(owners@, 0));
    while n < owners.len()
        invariant
            n <= owners.len(),
            all == all_reserved(owners@, owners@.len()),
            texts(out@) == all_reserved(owners@, n as nat),
            unique(texts(out@)),
        decreases owners.len() - n,
    {
        let own: &Vec<String> = &owners[n];
        let ghost done = all_reserved(owners@, n as nat);
        let ghost next = all_reserved(owners@, (n + 1) as nat);
        proof {
            lemma_all_reserved_prefix(owners@, (n + 1) as nat, owners@.len());
        }
        let mut k: usize = 0;
        while k < own.len()
            invariant
                k <= own.len(),
                n < owners@.len(),
                *own == owners@[n as int],
                all == all_reserved(owners@, owners@.len()),
                done == all_reserved(owners@, n as nat),
                next == done + texts(own@),
                texts(out@) == next.take(done.len() + k),
                unique(texts(out@)),
                next.len() <= all.len(),
                forall|i: int| 0 <= i < next.len() ==> #[trigger] all[i] == next[i],
            decreases own.len() - k,
        {
            let ghost at = done.len() + k;
            assert(next[at] == own@[k as int]@);
            if stands(&out, own[k].as_str()) {
                proof {
                    let held = texts(out@);
                    let i = choose|i: int|
                        0 <= i < out@.len() && #[trigger] texts(out@)[i] == own@[k as int]@;
                    assert(held.len() == out@.len());
                    assert(held[i] == next.take(at)[i]);
                    assert(all[i] == next[i]);
                    assert(all[at] == next[at]);
                }
                return None;
            }
            let ghost held = texts(out@);
            out.push(own[k].clone());
            proof {
                assert(texts(out@) =~= held.push(own@[k as int]@));
                assert(texts(out@) =~= next.take(at + 1));
                assert forall|i: int, j: int| 0 <= i < j < texts(out@).len() implies #[trigger] texts(
                    out@,
                )[i] != #[trigger] texts(out@)[j] by {
                    assert(texts(out@)[i] == held[i]);
                    if j < held.len() {
                        assert(texts(out@)[j] == held[j]);
                    }
                }
            }
            k = k + 1;
        }
        assert(next.take((done.len() + own@.len()) as int) =~= next);
        n = n + 1;
    }
    Some(out)
}

// ------------------------------------------------------------------ groups

/// Those of the first `n` plans whose key is `k`, in order.
pub open spec fn of_key(
    plans: Seq<Order>,
    keys: Seq<Seq<char>>,
    k: Seq<char>,
    n: nat,
) -> Seq<Order>
    decreases n,
{
    if n == 0 {
        Seq::empty()
    } else if keys[n - 1] == k {
        of_key(plans, keys, k, (n - 1) as nat).push(plans[n - 1])
    } else {
        of_key(plans, keys, k, (n - 1) as nat)
    }
}

/// Whether groups are the first `n` plans by their keys: the keys go up, each
/// group holds the plans of its key, and no key is left out.
pub open spec fn parts(
    groups: Seq<(String, Vec<Order>)>,
    plans: Seq<Order>,
    keys: Seq<Seq<char>>,
    n: nat,
) -> bool {
    &&& forall|i: int, j: int|
        0 <= i < j < groups.len() ==> before(
            (#[trigger] groups[i]).0@,
            (#[trigger] groups[j]).0@,
        )
    &&& forall|i: int|
        0 <= i < groups.len() ==> (#[trigger] groups[i]).1@.len() > 0 && groups[i].1@ == of_key(
            plans,
            keys,
            groups[i].0@,
            n,
        )
    &&& forall|m: int| 0 <= m < n ==> has_group(groups, #[trigger] keys[m])
}

/// Whether a key has a group.
pub open spec fn has_group(groups: Seq<(String, Vec<Order>)>, k: Seq<char>) -> bool {
    exists|i: int| 0 <= i < groups.len() && (#[trigger] groups[i]).0@ == k
}

/// Whether groups are all plans by their keys, each with its oldest lot first.
pub open spec fn grouped(
    groups: Seq<(String, Vec<Order>)>,
    plans: Seq<Order>,
    keys: Seq<Seq<char>>,
) -> bool {
    &&& forall|i: int, j: int|
        0 <= i < j < groups.len() ==> before(
            (#[trigger] groups[i]).0@,
            (#[trigger] groups[j]).0@,
        )
    &&& forall|i: int|
        0 <= i < groups.len() ==> (#[trigger] groups[i]).1@.len() > 0 && groups[i].1@
            == oldest_first(of_key(plans, keys, groups[i].0@, plans.len()))
    &&& forall|m: int| 0 <= m < plans.len() ==> has_group(groups, #[trigger] keys[m])
}

proof fn lemma_of_key_found(plans: Seq<Order>, keys: Seq<Seq<char>>, k: Seq<char>, n: nat)
    requires
        of_key(plans, keys, k, n).len() > 0,
    ensures
        exists|m: int| 0 <= m < n && #[trigger] keys[m] == k,
    decreases n,
{
    if n > 0 && keys[n - 1] != k {
        lemma_of_key_found(plans, keys, k, (n - 1) as nat);
    }
}

/// Where a key goes among keys that go up: the first place that is not before
/// it.
fn place_of(groups: &Vec<(String, Vec<Order>)>, key: &str) -> (r: usize)
    ensures
        r <= groups@.len(),
        forall|i: int| 0 <= i < r ==> before((#[trigger] groups@[i]).0@, key@),
        r < groups@.len() ==> !before(groups@[r as int].0@, key@),
{
    let mut i: usize = 0;
    while i < groups.len() && sorts_before(groups[i].0.as_str(), key)
        invariant
            i <= groups.len(),
            forall|k: int| 0 <= k < i ==> before((#[trigger] groups@[k]).0@, key@),
        decreases groups.len() - i,
    {
        i = i + 1;
    }
    i
}

fn join_group(
    groups: &mut Vec<(String, Vec<Order>)>,
    key: String,
    o: Order,
    Ghost(plans): Ghost<Seq<Order>>,
    Ghost(keys): Ghost<Seq<Seq<char>>>,
    Ghost(n): Ghost<nat>,
)
    requires
        n < plans.len(),
        plans.len() == keys.len(),
        keys[n as int] == key@,
        plans[n as int] == o,
        parts(old(groups)@, plans, keys, n),
    ensures
        parts(final(groups)@, plans, keys, n + 1),
{
    let at: usize = place_of(groups, key.as_str());
    let ghost was = groups@;
    let ghost k = key@;
    if at < groups.len() && same(groups[at].0.as_str(), key.as_str()) {
        let (name, mut members): (String, Vec<Order>) = groups.remove(at);
        members.push(o);
        groups.insert(at, (name, members));
        proof {
            let now = groups@;
            assert(now.len() == was.len());
            assert(forall|i: int| 0 <= i < was.len() ==> (#[trigger] now[i]).0 == was[i].0);
            assert forall|i: int| 0 <= i < now.len() implies (#[trigger] now[i]).1@.len() > 0
                && now[i].1@ == of_key(plans, keys, now[i].0@, n + 1) by {
                assert(was[i].1@ == of_key(plans, keys, was[i].0@, n));
                if i != at {
                    assert(now[i] == was[i]);
                    if was[i].0@ == k {
                        lemma_before_irreflexive(k);
                        if i < at {
                            assert(before(was[i].0@, was[at as int].0@));
                        } else {
                            assert(before(was[at as int].0@, was[i].0@));
                        }
                    }
                }
            }
            assert forall|m: int| 0 <= m < n + 1 implies has_group(now, #[trigger] keys[m]) by {
                if m < n {
                    assert(has_group(was, keys[m]));
                    let i = choose|i: int| 0 <= i < was.len() && (#[trigger] was[i]).0@ == keys[m];
                    assert(now[i].0@ == keys[m]);
                } else {
                    assert(now[at as int].0@ == k);
                }
            }
            assert forall|i: int, j: int| 0 <= i < j < now.len() implies before(
                (#[trigger] now[i]).0@,
                (#[trigger] now[j]).0@,
            ) by {
                assert(before(was[i].0@, was[j].0@));
            }
        }
    } else {
        let mut members: Vec<Order> = Vec::new();
        members.push(o);
        proof {
            // No group of this key is there yet.
            if at < was.len() {
                lemma_before_total(was[at as int].0@, k);
            }
            assert forall|i: int| 0 <= i < was.len() implies (#[trigger] was[i]).0@ != k by {
                lemma_before_irreflexive(k);
                if i > at {
                    assert(before(was[at as int].0@, was[i].0@));
                    if was[i].0@ == k {
                        lemma_before_transitive(k, was[at as int].0@, k);
                    }
                }
            }
            if of_key(plans, keys, k, n).len() > 0 {
                lemma_of_key_found(plans, keys, k, n);
                let m = choose|m: int| 0 <= m < n && #[trigger] keys[m] == k;
                assert(has_group(was, keys[m]));
            }
            assert(of_key(plans, keys, k, n) =~= Seq::<Order>::empty());
        }
        groups.insert(at, (key, members));
        proof {
            let now = groups@;
            assert(now =~= was.insert(at as int, (key, members)));
            assert(members@ =~= of_key(plans, keys, k, n + 1));
            assert forall|i: int| 0 <= i < now.len() implies (#[trigger] now[i]).1@.len() > 0
                && now[i].1@ == of_key(plans, keys, now[i].0@, n + 1) by {
                if i < at {
                    assert(now[i] == was[i]);
                    assert(was[i].0@ != k);
                } else if i > at {
                    assert(now[i] == was[i - 1]);
                    assert(was[i - 1].0@ != k);
                }
            }
            assert forall|m: int| 0 <= m < n + 1 implies has_group(now, #[trigger] keys[m]) by {
                if m < n {
                    assert(has_group(was, keys[m]));
                    let i = choose|i: int| 0 <= i < was.len() && (#[trigger] was[i]).0@ == keys[m];
                    if i < at {
                        assert(now[i] == was[i]);
                    } else {
                        assert(now[i + 1] == was[i]);
                    }
                } else {
                    assert(now[at as int].0@ == k);
                }
            }
            assert forall|i: int, j: int| 0 <= i < j < now.len() implies before(
                (#[trigger] now[i]).0@,
                (#[trigger] now[j]).0@,
            ) by {
                let a = if i < at {
                    i
                } else {
                    i - 1
                };
                let b = if j < at {
                    j
                } else {
                    j - 1
                };
                if i == at {
                    assert(now[j] == was[j - 1]);
                    if j - 1 > at {
                        assert(before(was[at as int].0@, was[j - 1].0@));
                        lemma_before_transitive(k, was[at as int].0@, was[j - 1].0@);
                    }
                } else if j == at {
                    assert(now[i] == was[i]);
                } else {
                    assert(now[i] == was[a] && now[j] == was[b]);
                    assert(before(was[a].0@, was[b].0@));
                }
            }
        }
    }
}

/// Groups plans by the keys that are given with them, each with its oldest lot
/// first.
pub fn group_by(plans: &Vec<Order>, keys: &Vec<String>) -> (r: Vec<(String, Vec<Order>)>)
    requires
        keys@.len() == plans@.len(),
    ensures
        grouped(r@, plans@, texts(keys@)),
{
    let ghost ks = texts(keys@);
    let mut groups: Vec<(String, Vec<Order>)> = Vec::new();
    let mut n: usize = 0;
    while n < plans.len()
        invariant
            n <= plans.len(),
            keys@.len() == plans@.len(),
            ks == texts(keys@),
            parts(groups@, plans@, ks, n as nat),
        decreases plans.len() - n,
    {
        join_group(
            &mut groups,
            keys[n].clone(),
            plans[n].clone(),
            Ghost(plans@),
            Ghost(ks),
            Ghost(n as nat),
        );
        n = n + 1;
    }
    let ghost done = groups@;
    let mut out: Vec<(String, Vec<Order>)> = Vec::new();
    let mut i: usize = 0;
    while i < groups.len()
        invariant
            i <= groups.len(),
            groups@ == done,
            ks == texts(keys@),
            keys@.len() == plans@.len(),
            parts(done, plans@, ks, plans@.len()),
            out@.len() == i,
            forall|k: int|
                0 <= k < i ==> (#[trigger] out@[k]).0@ == done[k].0@ && out@[k].1@
                    == oldest_first(done[k].1@) && out@[k].1@.len() > 0,
        decreases groups.len() - i,
    {
        let sorted: Vec<Order> = sort_oldest_first(&groups[i].1);
        proof {
            crate::keys::law_the_oldest_lot_comes_first(done[i as int].1@);
        }
        out.push((groups[i].0.clone(), sorted));
        i = i + 1;
    }
    proof {
        assert forall|m: int| 0 <= m < plans@.len() implies has_group(out@, #[trigger] ks[m]) by {
            assert(has_group(done, ks[m]));
            let i = choose|i: int| 0 <= i < done.len() && (#[trigger] done[i]).0@ == ks[m];
            assert(out@[i].0@ == ks[m]);
        }
        assert forall|i: int, j: int| 0 <= i < j < out@.len() implies before(
            (#[trigger] out@[i]).0@,
            (#[trigger] out@[j]).0@,
        ) by {
            assert(before(done[i].0@, done[j].0@));
        }
    }
    out
}

/// Groups plans whose quotes are identical, each group with its oldest lot
/// first.
pub fn groups(plans: &Vec<Order>) -> (r: Vec<(String, Vec<Order>)>)
    ensures
        grouped(r@, plans@, group_keys_of(plans@)),
{
    let mut keys: Vec<String> = Vec::new();
    let mut i: usize = 0;
    while i < plans.len()
        invariant
            i <= plans.len(),
            keys@.len() == i,
            forall|k: int| 0 <= k < i ==> #[trigger] keys@[k]@ == group_keys_of(plans@)[k],
        decreases plans.len() - i,
    {
        keys.push(group_key(&plans[i]));
        i = i + 1;
    }
    assert(texts(keys@) =~= group_keys_of(plans@));
    group_by(plans, &keys)
}

// --------------------------------------------------------------- the pass

/// The contracts that are claimed of a ladder.
pub open spec fn claimed(claims: Seq<(String, i64)>, key: Seq<char>) -> int {
    match lookup(claims, key) {
        Some(n) => n as int,
        None => 0,
    }
}

/// Claims contracts of a ladder for an order, so that the orders of one pass are
/// sized within one budget.
pub fn claim(claims: &mut Vec<(String, i64)>, key: &str, qty: i64)
    requires
        i64::MIN <= claimed(old(claims)@, key@) + qty <= i64::MAX,
    ensures
        forall|k: Seq<char>| #[trigger]
            claimed(final(claims)@, k) == claimed(old(claims)@, k) + (if k == key@ {
                qty as int
            } else {
                0
            }),
{
    let held: i64 = match find(claims, key) {
        Some(n) => *n,
        None => 0,
    };
    put(claims, key, held + qty);
}

/// What a lot does in a pass.
#[derive(Clone, Copy, Debug, PartialEq, Eq, Structural)]
pub enum LotStep {
    /// It has an order out, which was looked after already.
    Busy,
    /// Another lot's order has reserved it: it asks for nothing.
    Yields,
    Plan,
}

/// What a lot does in a pass, of whether it has an order out and of the lots
/// that are reserved.
pub fn lot_step(busy: bool, key: &str, reserved: &Vec<String>) -> (r: LotStep)
    ensures
        r == (if busy {
            LotStep::Busy
        } else if exists|i: int| 0 <= i < reserved@.len() && #[trigger] texts(reserved@)[i] == key@ {
            LotStep::Yields
        } else {
            LotStep::Plan
        }),
{
    if busy {
        LotStep::Busy
    } else if stands(reserved, key) {
        LotStep::Yields
    } else {
        LotStep::Plan
    }
}

/// Which of the resting groups have a key.
pub fn incumbents(resting: &Vec<Option<String>>, group: &str) -> (r: Vec<usize>)
    ensures
        forall|i: int| 0 <= i < r@.len() ==> (#[trigger] r@[i]) < resting@.len(),
        forall|i: int, j: int| 0 <= i < j < r@.len() ==> #[trigger] r@[i] < #[trigger] r@[j],
        forall|w: int|
            0 <= w < resting@.len() ==> (r@.contains(w as usize) <==> ((#[trigger] resting@[w]) matches Some(
                k,
            ) && k@ == group@)),
{
    let mut out: Vec<usize> = Vec::new();
    let mut n: usize = 0;
    while n < resting.len()
        invariant
            n <= resting.len(),
            forall|i: int| 0 <= i < out@.len() ==> (#[trigger] out@[i]) < n,
            forall|i: int, j: int|
                0 <= i < j < out@.len() ==> #[trigger] out@[i] < #[trigger] out@[j],
            forall|w: int|
                0 <= w < n ==> (out@.contains(w as usize) <==> ((#[trigger] resting@[w]) matches Some(
                    k,
                ) && k@ == group@)),
        decreases resting.len() - n,
    {
        let hit: bool = match &resting[n] {
            Some(k) => same(k.as_str(), group),
            None => false,
        };
        let ghost was = out@;
        if hit {
            out.push(n);
        }
        proof {
            assert forall|w: int| 0 <= w < n + 1 implies (out@.contains(w as usize) <==> ((
            #[trigger] resting@[w]) matches Some(k) && k@ == group@)) by {
                if was.contains(w as usize) {
                    let i = choose|i: int| 0 <= i < was.len() && was[i] == w as usize;
                    assert(out@[i] == w as usize);
                }
                if out@.contains(w as usize) {
                    let i = choose|i: int| 0 <= i < out@.len() && out@[i] == w as usize;
                    if i < was.len() {
                        assert(was[i] == w as usize);
                    }
                }
                if w == n && hit {
                    assert(out@[was.len() as int] == n);
                }
            }
        }
        n = n + 1;
    }
    out
}

/// What becomes of a group of plans.
#[derive(Clone, Copy, Debug, PartialEq, Eq, Structural)]
pub enum GroupStep {
    /// Orders of the same quote rest: they come off first, and the lots rest
    /// together once that is confirmed.
    Regroup,
    /// Nothing more rests in this pass.
    Stop,
    /// A lot of it pays no more.
    Skip,
    Place,
}

/// Whether a plan pays no more; one that crosses is not held to that.
pub open spec fn spoiled(fees: FeeSchedule, o: Order, view: EngineView) -> bool {
    o.cross is None && pay_refusal(fees, o, view) is Some
}

/// What becomes of a group, of how many orders of its quote rest, of the naked
/// legs that are carried and of the engine's view as it is now.
pub fn group_step(
    resting: usize,
    outstanding: u64,
    fees: &FeeSchedule,
    members: &Vec<Order>,
    view: Option<&EngineView>,
) -> (r: GroupStep)
    requires
        fees.wf(),
        tradable(members@),
    ensures
        r == (if resting > 0 {
            GroupStep::Regroup
        } else if outstanding != 0 {
            GroupStep::Stop
        } else {
            match view {
                None => GroupStep::Stop,
                Some(v) => if exists|i: int|
                    0 <= i < members@.len() && spoiled(*fees, #[trigger] members@[i], *v) {
                    GroupStep::Skip
                } else {
                    GroupStep::Place
                },
            }
        }),
{
    if resting > 0 {
        return GroupStep::Regroup;
    }
    if outstanding != 0 {
        return GroupStep::Stop;
    }
    let v: &EngineView = match view {
        None => {
            return GroupStep::Stop;
        },
        Some(v) => v,
    };
    let mut i: usize = 0;
    while i < members.len()
        invariant
            i <= members.len(),
            resting == 0,
            outstanding == 0,
            view == Some(v),
            fees.wf(),
            tradable(members@),
            forall|k: int| 0 <= k < i ==> !spoiled(*fees, #[trigger] members@[k], *v),
        decreases members.len() - i,
    {
        if is_spoiled(fees, &members[i], v) {
            return GroupStep::Skip;
        }
        i = i + 1;
    }
    GroupStep::Place
}

fn is_spoiled(fees: &FeeSchedule, o: &Order, view: &EngineView) -> (r: bool)
    requires
        fees.wf(),
        qty_ok(o.qty),
    ensures
        r == spoiled(*fees, *o, *view),
{
    o.cross.is_none() && still_pays(fees, o, view).is_err()
}

} // verus!
