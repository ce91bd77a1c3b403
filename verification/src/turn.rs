//! One turn over all lots, step by step: orders that are known are looked after
//! before anything new is priced, lots that no order has reserved are then
//! priced within one budget, and those with identical quotes rest together.
//! The outside work of a turn is done by its caller, between two steps.
use crate::assoc::lookup;
use crate::batch::{
    claim, claimed, group_step, grouped, groups, incumbents, lot_step, of_key, reservations,
    spoiled, unique, GroupStep, LotStep,
};
use crate::board::EngineView;
use crate::decide::Exit;
use crate::depth::left;
use crate::fees::FeeSchedule;
use crate::group::{group_keys_of, texts};
use crate::hedge::tradable;
use crate::keys::{group_terms, law_the_oldest_lot_comes_first, lot_digest, oldest_first};
use crate::lot::{close_depth_key, depth_key, State};
use crate::money::{qty_ok, QTY_MAX};
use crate::order::Order;
use crate::text::{
    before, lemma_before_irreflexive, lemma_before_total, lemma_before_transitive, same,
    sorts_before,
};
use vstd::prelude::*;

verus! {

// ------------------------------------------------------------------ the lots

/// The key of a lot.
pub open spec fn key_of(s: State) -> Seq<char> {
    lot_digest(s.rel_id@, s.opened_bits)
}

/// The key of a candidate's lot.
pub open spec fn exit_key(e: Exit) -> Seq<char> {
    lot_digest(e.rel_id@, e.opened_ts)
}

/// Whether lots stand in the order of their keys, each once.
pub open spec fn in_order(lots: Seq<State>) -> bool {
    forall|i: int, j: int|
        0 <= i < j < lots.len() ==> before(key_of(#[trigger] lots[i]), key_of(#[trigger] lots[j]))
}

/// Whether every lot keeps its invariant.
pub open spec fn sound(lots: Seq<State>) -> bool {
    forall|i: int| 0 <= i < lots.len() ==> (#[trigger] lots[i]).wf()
}

/// Whether a lot is a candidate's, with nothing under way.
pub open spec fn fresh_of(s: State, e: Exit) -> bool {
    &&& s.rel_id@ == e.rel_id@
    &&& s.market@ == e.market_id@
    &&& s.opened_bits == e.opened_ts
    &&& s.active is None
    &&& !s.latched
}

/// Whether some lot has a key.
pub open spec fn has_key(lots: Seq<State>, k: Seq<char>) -> bool {
    exists|i: int| 0 <= i < lots.len() && key_of(#[trigger] lots[i]) == k
}

/// Whether a lot came in with the first of the candidates that have its key, as
/// no lot had it.
pub open spec fn came_in(s: State, exits: Seq<Exit>, n: int, was: Seq<State>) -> bool {
    exists|e: int|
        0 <= e < n && fresh_of(s, #[trigger] exits[e]) && !has_key(was, exit_key(exits[e]))
            && forall|d: int| 0 <= d < e ==> exit_key(#[trigger] exits[d]) != exit_key(exits[e])
}

/// Whether lots are those that there were and one for each of the first `n`
/// candidates that had none.
pub open spec fn admitted(was: Seq<State>, exits: Seq<Exit>, n: int, lots: Seq<State>) -> bool {
    &&& in_order(lots)
    &&& forall|i: int| 0 <= i < was.len() ==> lots.contains(#[trigger] was[i])
    &&& forall|e: int| 0 <= e < n ==> has_key(lots, exit_key(#[trigger] exits[e]))
    &&& forall|i: int|
        0 <= i < lots.len() ==> was.contains(#[trigger] lots[i]) || came_in(lots[i], exits, n, was)
}

fn take_in_one(lots: &mut Vec<State>, exit: &Exit)
    requires
        in_order(old(lots)@),
        sound(old(lots)@),
    ensures
        in_order(final(lots)@),
        sound(final(lots)@),
        has_key(old(lots)@, exit_key(*exit)) ==> final(lots)@ == old(lots)@,
        !has_key(old(lots)@, exit_key(*exit)) ==> exists|k: int, s: State|
            0 <= k <= old(lots)@.len() && fresh_of(s, *exit) && final(lots)@ == #[trigger] old(
                lots,
            )@.insert(k, s),
{
    let ghost was = lots@;
    let fresh: State = State::new(exit);
    let key: String = fresh.key();
    let mut i: usize = 0;
    while i < lots.len()
        invariant_except_break
            lots@ == was,
            i <= lots@.len(),
            key@ == key_of(fresh),
            forall|j: int| 0 <= j < i ==> before(key_of(#[trigger] was[j]), key@),
        ensures
            lots@ == was,
            i <= lots@.len(),
            forall|j: int| 0 <= j < i ==> before(key_of(#[trigger] was[j]), key@),
            i < was.len() ==> !before(key_of(was[i as int]), key@),
        decreases lots@.len() - i,
    {
        let own: String = lots[i].key();
        if !sorts_before(own.as_str(), key.as_str()) {
            break;
        }
        i = i + 1;
    }
    if i < lots.len() {
        let own: String = lots[i].key();
        if same(own.as_str(), key.as_str()) {
            return;
        }
        proof {
            lemma_before_total(key@, key_of(was[i as int]));
        }
    }
    proof {
        assert forall|j: int| 0 <= j < was.len() implies key_of(#[trigger] was[j]) != key@ by {
            if j < i {
                lemma_before_irreflexive(key@);
            } else {
                if j > i {
                    lemma_before_transitive(key@, key_of(was[i as int]), key_of(was[j]));
                }
                lemma_before_irreflexive(key@);
            }
        }
        let now = was.insert(i as int, fresh);
        assert forall|a: int, b: int| 0 <= a < b < now.len() implies before(
            key_of(#[trigger] now[a]),
            key_of(#[trigger] now[b]),
        ) by {
            if a == i {
                assert(now[b] == was[b - 1]);
                if b - 1 > i {
                    lemma_before_transitive(key@, key_of(was[i as int]), key_of(was[b - 1]));
                }
            } else if b == i {
                assert(now[a] == was[a]);
            } else {
                assert(now[a] == was[if a < i {
                    a
                } else {
                    a - 1
                }]);
                assert(now[b] == was[if b < i {
                    b
                } else {
                    b - 1
                }]);
            }
        }
        assert forall|a: int| 0 <= a < now.len() implies (#[trigger] now[a]).wf() by {
            if a < i {
                assert(now[a] == was[a]);
            } else if a > i {
                assert(now[a] == was[a - 1]);
            }
        }
    }
    lots.insert(i, fresh);
    assert(lots@ == was.insert(i as int, fresh));
}

/// Takes in a lot for every candidate that has none.
pub fn take_in(lots: &mut Vec<State>, exits: &Vec<Exit>)
    requires
        in_order(old(lots)@),
        sound(old(lots)@),
    ensures
        admitted(old(lots)@, exits@, exits@.len() as int, final(lots)@),
        sound(final(lots)@),
        final(lots)@.len() <= old(lots)@.len() + exits@.len(),
{
    let ghost was = lots@;
    let mut n: usize = 0;
    proof {
        assert forall|i: int| 0 <= i < was.len() implies lots@.contains(#[trigger] was[i]) by {
            assert(lots@[i] == was[i]);
        }
    }
    while n < exits.len()
        invariant
            n <= exits@.len(),
            admitted(was, exits@, n as int, lots@),
            sound(lots@),
            lots@.len() <= was.len() + n,
        decreases exits@.len() - n,
    {
        let ghost held = lots@;
        take_in_one(lots, &exits[n]);
        proof {
            lemma_admitted_one(was, exits@, n as int, held, lots@);
        }
        n = n + 1;
    }
}

proof fn lemma_admitted_one(
    was: Seq<State>,
    exits: Seq<Exit>,
    n: int,
    held: Seq<State>,
    now: Seq<State>,
)
    requires
        0 <= n < exits.len(),
        admitted(was, exits, n, held),
        in_order(now),
        has_key(held, exit_key(exits[n])) ==> now == held,
        !has_key(held, exit_key(exits[n])) ==> exists|k: int, s: State|
            0 <= k <= held.len() && fresh_of(s, exits[n]) && now == #[trigger] held.insert(k, s),
    ensures
        admitted(was, exits, n + 1, now),
{
    let e = exits[n];
    if has_key(held, exit_key(e)) {
        assert forall|i: int| 0 <= i < now.len() implies was.contains(#[trigger] now[i]) || came_in(
            now[i],
            exits,
            n + 1,
            was,
        ) by {
            if !was.contains(held[i]) {
                lemma_came_in_stays(held[i], exits, n, was);
            }
        }
    } else {
        let (k, s) = choose|k: int, s: State|
            0 <= k <= held.len() && fresh_of(s, exits[n]) && now == #[trigger] held.insert(k, s);
        assert(now[k] == s);
        assert forall|i: int| 0 <= i < held.len() implies now.contains(#[trigger] held[i]) by {
            assert(now[if i < k {
                i
            } else {
                i + 1
            }] == held[i]);
        }
        assert forall|i: int| 0 <= i < was.len() implies now.contains(#[trigger] was[i]) by {
            assert(held.contains(was[i]));
            let j = choose|j: int| 0 <= j < held.len() && held[j] == was[i];
            assert(now.contains(held[j]));
        }
        assert forall|d: int| 0 <= d < n + 1 implies has_key(now, exit_key(#[trigger] exits[d])) by {
            if d < n {
                assert(has_key(held, exit_key(exits[d])));
                let j = choose|j: int|
                    0 <= j < held.len() && key_of(#[trigger] held[j]) == exit_key(exits[d]);
                assert(now.contains(held[j]));
                let a = choose|a: int| 0 <= a < now.len() && now[a] == held[j];
                assert(key_of(now[a]) == exit_key(exits[d]));
            } else {
                assert(key_of(now[k]) == exit_key(e));
            }
        }
        assert(came_in(s, exits, n + 1, was)) by {
            if has_key(was, exit_key(e)) {
                let j = choose|j: int|
                    0 <= j < was.len() && key_of(#[trigger] was[j]) == exit_key(e);
                assert(held.contains(was[j]));
                let a = choose|a: int| 0 <= a < held.len() && held[a] == was[j];
                assert(key_of(held[a]) == exit_key(e));
            }
            assert forall|d: int| 0 <= d < n implies exit_key(#[trigger] exits[d]) != exit_key(
                exits[n],
            ) by {
                assert(has_key(held, exit_key(exits[d])));
            }
            assert(fresh_of(s, exits[n]));
        }
        assert forall|i: int| 0 <= i < now.len() implies was.contains(#[trigger] now[i]) || came_in(
            now[i],
            exits,
            n + 1,
            was,
        ) by {
            if i != k {
                let j = if i < k {
                    i
                } else {
                    i - 1
                };
                assert(now[i] == held[j]);
                if !was.contains(held[j]) {
                    lemma_came_in_stays(held[j], exits, n, was);
                }
            }
        }
    }
}

proof fn lemma_came_in_stays(s: State, exits: Seq<Exit>, n: int, was: Seq<State>)
    requires
        came_in(s, exits, n, was),
    ensures
        came_in(s, exits, n + 1, was),
{
    let e = choose|e: int|
        0 <= e < n && fresh_of(s, #[trigger] exits[e]) && !has_key(was, exit_key(exits[e]))
            && forall|d: int| 0 <= d < e ==> exit_key(#[trigger] exits[d]) != exit_key(exits[e]);
    assert(0 <= e < n + 1 && fresh_of(s, exits[e]));
}

// ---------------------------------------------------------------- the budget

/// The most lots that a turn takes.
pub const LOTS_MAX: usize = 0xffff_ffff;

/// The contracts of a closing ladder that a lot's resting order speaks for.
pub open spec fn speaks_for(s: State, k: Seq<char>) -> int {
    match s.active {
        Some(a) => if a.order.cross is None && a.filled is None && depth_key(
            a.order.direction,
            a.order.shape,
            a.order.closes_on()@,
        ) == k {
            a.order.qty as int
        } else {
            0
        },
        None => 0,
    }
}

/// The contracts of a ladder that the first `n` lots speak for.
pub open spec fn spoken(lots: Seq<State>, n: nat, k: Seq<char>) -> int
    decreases n,
{
    if n == 0 {
        0
    } else {
        spoken(lots, (n - 1) as nat, k) + speaks_for(lots[n - 1], k)
    }
}

/// The contracts of a ladder that the first `n` plans were sized to.
pub open spec fn planned(plans: Seq<Order>, n: nat, k: Seq<char>) -> int
    decreases n,
{
    if n == 0 {
        0
    } else {
        let o = plans[n - 1];
        planned(plans, (n - 1) as nat, k) + (if depth_key(o.direction, o.shape, o.closes_on()@)
            == k {
            o.qty as int
        } else {
            0
        })
    }
}

/// Whether claims are what the lots speak for and what the plans were sized to.
pub open spec fn budgeted(
    claims: Seq<(String, i64)>,
    lots: Seq<State>,
    n: nat,
    plans: Seq<Order>,
) -> bool {
    forall|k: Seq<char>| #[trigger]
        claimed(claims, k) == spoken(lots, n, k) + planned(plans, plans.len(), k)
}

proof fn lemma_spoken_fits(lots: Seq<State>, n: nat, k: Seq<char>)
    requires
        sound(lots),
        n <= lots.len(),
    ensures
        0 <= spoken(lots, n, k) <= n * QTY_MAX,
    decreases n,
{
    if n > 0 {
        lemma_spoken_fits(lots, (n - 1) as nat, k);
        assert(lots[n - 1].wf());
        assert(n * QTY_MAX == (n - 1) * QTY_MAX + QTY_MAX) by (nonlinear_arith);
    }
}

proof fn lemma_planned_fits(plans: Seq<Order>, n: nat, k: Seq<char>)
    requires
        tradable(plans),
        n <= plans.len(),
    ensures
        0 <= planned(plans, n, k) <= n * QTY_MAX,
    decreases n,
{
    if n > 0 {
        lemma_planned_fits(plans, (n - 1) as nat, k);
        assert(qty_ok(plans[n - 1].qty));
        assert(n * QTY_MAX == (n - 1) * QTY_MAX + QTY_MAX) by (nonlinear_arith);
    }
}

proof fn lemma_planned_before(plans: Seq<Order>, o: Order, n: nat, k: Seq<char>)
    requires
        n <= plans.len(),
    ensures
        planned(plans.push(o), n, k) == planned(plans, n, k),
    decreases n,
{
    if n > 0 {
        lemma_planned_before(plans, o, (n - 1) as nat, k);
    }
}

fn claims_of(lots: &Vec<State>) -> (r: Vec<(String, i64)>)
    requires
        sound(lots@),
        lots@.len() <= LOTS_MAX,
    ensures
        budgeted(r@, lots@, lots@.len(), Seq::empty()),
{
    let mut claims: Vec<(String, i64)> = Vec::new();
    let mut n: usize = 0;
    while n < lots.len()
        invariant
            n <= lots@.len(),
            lots@.len() <= LOTS_MAX,
            sound(lots@),
            budgeted(claims@, lots@, n as nat, Seq::empty()),
        decreases lots@.len() - n,
    {
        let ghost held = claims@;
        assert(lots@[n as int].wf());
        match lots[n].passive_claim() {
            Some((key, qty)) => {
                proof {
                    lemma_spoken_fits(lots@, n as nat, key@);
                    assert(n * QTY_MAX <= LOTS_MAX * QTY_MAX) by (nonlinear_arith)
                        requires
                            n <= LOTS_MAX,
                    ;
                    assert(claimed(held, key@) == spoken(lots@, n as nat, key@));
                }
                claim(&mut claims, key.as_str(), qty);
            },
            None => {},
        }
        proof {
            assert forall|k: Seq<char>| #[trigger]
                claimed(claims@, k) == spoken(lots@, (n + 1) as nat, k) + planned(
                    Seq::<Order>::empty(),
                    0,
                    k,
                ) by {
                assert(claimed(held, k) == spoken(lots@, n as nat, k));
            }
        }
        n = n + 1;
    }
    claims
}

// ------------------------------------------------------------------ the turn

/// How far a turn is.
#[derive(Clone, Copy, Debug, PartialEq, Eq, Structural)]
pub enum Stage {
    /// It looks after the orders that are known; the lots before `from` are done.
    Known { from: usize },
    /// It waits for the candidates.
    Scan,
    /// It waits for what one lot would rest.
    Price { at: usize },
    /// It works the groups; those before `from` are done, but for the orders
    /// that are still to come off.
    Work { from: usize },
    Over,
}

/// A turn that is under way.
#[derive(Debug)]
pub struct Turn {
    pub stage: Stage,
    /// The lots that some order has reserved.
    pub reserved: Vec<String>,
    /// What is claimed of each closing ladder.
    pub claims: Vec<(String, i64)>,
    pub plans: Vec<Order>,
    pub groups: Vec<(String, Vec<Order>)>,
    /// The lots whose orders are still to come off for the group at work.
    pub off: Vec<usize>,
}

/// What came of an action.
#[derive(Debug)]
pub enum Event {
    Managed,
    /// The candidates, none where there was no view to scan with.
    Scanned { exits: Vec<Exit> },
    /// What the lot would rest, if anything.
    Priced { order: Option<Order> },
    /// An order came off, or was placed.
    Worked,
}

/// What to do.
#[derive(Debug)]
pub enum Act {
    /// Look after the order of a lot.
    Manage { at: usize },
    Scan,
    /// Price a lot, within what the turn's claims leave of the closing ladders.
    Price { at: usize },
    /// Look after the order of a lot, which is to come off.
    TakeOff { at: usize },
    /// Place one order for lots, under the oldest of them.
    Place { at: usize, members: Vec<Order> },
    /// The turn is over.
    Rest,
    /// A lot is reserved twice: stop.
    Halt,
}

/// The first lot from `from` on that has an order out.
pub open spec fn first_busy(lots: Seq<State>, from: int) -> Option<int>
    decreases lots.len() - from,
{
    if from < 0 || from >= lots.len() {
        None
    } else if lots[from].active is Some {
        Some(from)
    } else {
        first_busy(lots, from + 1)
    }
}

/// Whether some order has reserved the lot of a key.
pub open spec fn is_held(reserved: Seq<String>, key: Seq<char>) -> bool {
    exists|i: int| 0 <= i < reserved.len() && #[trigger] texts(reserved)[i] == key
}

/// Whether a lot may be priced: no order of its own is out, and none has
/// reserved it.
pub open spec fn is_free(s: State, reserved: Seq<String>) -> bool {
    s.active is None && !is_held(reserved, key_of(s))
}

/// The first lot from `from` on that may be priced.
pub open spec fn first_free(lots: Seq<State>, reserved: Seq<String>, from: int) -> Option<int>
    decreases lots.len() - from,
{
    if from < 0 || from >= lots.len() {
        None
    } else if is_free(lots[from], reserved) {
        Some(from)
    } else {
        first_free(lots, reserved, from + 1)
    }
}

/// Whether a lot's order rests at the terms of a group.
pub open spec fn rests_at(s: State, terms: Seq<char>) -> bool {
    s.active matches Some(a) && a.order.cross is None && group_terms(a.order) == terms
}

/// Whether places are those of all lots whose orders rest at the terms of a
/// group, in order.
pub open spec fn lists(places: Seq<usize>, lots: Seq<State>, terms: Seq<char>) -> bool {
    &&& forall|i: int| 0 <= i < places.len() ==> (#[trigger] places[i]) < lots.len()
    &&& forall|i: int, j: int|
        0 <= i < j < places.len() ==> #[trigger] places[i] < #[trigger] places[j]
    &&& forall|w: int|
        0 <= w < lots.len() ==> (places.contains(w as usize) <==> rests_at(#[trigger] lots[w], terms))
}

/// What becomes of a group.
pub open spec fn fate(
    lots: Seq<State>,
    g: (String, Vec<Order>),
    outstanding: u64,
    fees: FeeSchedule,
    view: Option<&EngineView>,
) -> GroupStep {
    if exists|w: int| 0 <= w < lots.len() && rests_at(#[trigger] lots[w], g.0@) {
        GroupStep::Regroup
    } else if outstanding != 0 {
        GroupStep::Stop
    } else {
        match view {
            None => GroupStep::Stop,
            Some(v) => if exists|m: int|
                0 <= m < g.1@.len() && spoiled(fees, #[trigger] g.1@[m], *v) {
                GroupStep::Skip
            } else {
                GroupStep::Place
            },
        }
    }
}

/// The first group from `from` on that is not skipped.
pub open spec fn first_work(
    lots: Seq<State>,
    groups: Seq<(String, Vec<Order>)>,
    from: int,
    outstanding: u64,
    fees: FeeSchedule,
    view: Option<&EngineView>,
) -> Option<int>
    decreases groups.len() - from,
{
    if from < 0 || from >= groups.len() {
        None
    } else if fate(lots, groups[from], outstanding, fees, view) is Skip {
        first_work(lots, groups, from + 1, outstanding, fees, view)
    } else {
        Some(from)
    }
}

/// A lot whose order is to come off.
pub open spec fn regrouped(s: State) -> State {
    match s.active {
        Some(a) => State { active: Some(crate::lot::Active { regroup: true, ..a }), ..s },
        None => s,
    }
}

/// Whether a lot with no order out is the one that an order is for.
pub open spec fn owns(s: State, o: Order) -> bool {
    s.active is None && s.rel_id@ == o.rel_id@ && s.opened_bits == o.closes_ts
}

/// Whether each order is for a lot with no order out.
pub open spec fn all_owned(lots: Seq<State>, orders: Seq<Order>) -> bool {
    forall|m: int| 0 <= m < orders.len() ==> is_owned(lots, #[trigger] orders[m])
}

pub open spec fn is_owned(lots: Seq<State>, o: Order) -> bool {
    exists|i: int| 0 <= i < lots.len() && owns(#[trigger] lots[i], o)
}

/// Whether a turn over lots can be at its stage.
pub open spec fn waits(t: Turn, lots: Seq<State>) -> bool {
    &&& lots.len() <= LOTS_MAX
    &&& sound(lots)
    &&& in_order(lots)
    &&& match t.stage {
        Stage::Known { from } => from <= lots.len() && t.plans@.len() == 0,
        Stage::Scan => t.plans@.len() == 0,
        Stage::Price { at } => {
            &&& at < lots.len()
            &&& is_free(lots[at as int], t.reserved@)
            &&& t.plans@.len() <= at
            &&& tradable(t.plans@)
            &&& all_owned(lots, t.plans@)
            &&& budgeted(t.claims@, lots, lots.len(), t.plans@)
        },
        Stage::Work { from } => {
            &&& from <= t.groups@.len()
            &&& workable(lots, t.groups@, from as int)
            &&& forall|i: int| 0 <= i < t.off@.len() ==> (#[trigger] t.off@[i]) < lots.len()
        },
        Stage::Over => true,
    }
}

/// Whether the groups from `from` on can be worked: each has lots, and each of
/// its orders is for a lot with no order out.
pub open spec fn workable(lots: Seq<State>, groups: Seq<(String, Vec<Order>)>, from: int) -> bool {
    forall|g: int|
        from <= g < groups.len() ==> (#[trigger] groups[g]).1@.len() > 0 && tradable(groups[g].1@)
            && all_owned(lots, groups[g].1@)
}

/// Whether an event answers what a turn waits for.
pub open spec fn answers(event: Event, t: Turn, lots: Seq<State>) -> bool {
    match t.stage {
        Stage::Known { .. } => event is Managed,
        Stage::Scan => event is Scanned && lots.len() + event->exits@.len() <= LOTS_MAX,
        Stage::Price { at } => event is Priced && (event->order matches Some(o) ==> qty_ok(o.qty)
            && owns(lots[at as int], o)),
        Stage::Work { .. } => event is Worked,
        Stage::Over => false,
    }
}

/// What follows where the known orders from `from` on are looked after.
pub open spec fn known_on(lots: Seq<State>, from: int, stage: Stage, act: Act) -> bool {
    match first_busy(lots, from) {
        Some(i) => act == (Act::Manage { at: i as usize }) && stage == (Stage::Known {
            from: (i + 1) as usize,
        }),
        None => act == Act::Scan && stage == Stage::Scan,
    }
}

/// What follows where the groups from `from` on are worked.
pub open spec fn worked_on(
    pre: Seq<State>,
    t: Turn,
    from: int,
    outstanding: u64,
    fees: FeeSchedule,
    view: Option<&EngineView>,
    post: Seq<State>,
    act: Act,
) -> bool {
    match first_work(pre, t.groups@, from, outstanding, fees, view) {
        Some(g) => match fate(pre, t.groups@[g], outstanding, fees, view) {
            GroupStep::Regroup => {
                &&& act is TakeOff
                &&& lists(seq![act->TakeOff_at] + t.off@, pre, t.groups@[g].0@)
                &&& post == pre.update(
                    act->TakeOff_at as int,
                    regrouped(pre[act->TakeOff_at as int]),
                )
                &&& t.stage == (Stage::Work { from: (g + 1) as usize })
            },
            GroupStep::Place => {
                &&& act is Place
                &&& act->members@ == t.groups@[g].1@
                &&& act->Place_at < pre.len()
                &&& owns(pre[act->Place_at as int], act->members@[0])
                &&& t.off@.len() == 0
                &&& post == pre
                &&& t.stage == (Stage::Work { from: (g + 1) as usize })
            },
            _ => act == Act::Rest && t.stage == Stage::Over && post == pre,
        },
        None => act == Act::Rest && t.stage == Stage::Over && post == pre,
    }
}

fn known(lots: &Vec<State>, from: usize) -> (r: (Stage, Act))
    requires
        from <= lots@.len(),
    ensures
        known_on(lots@, from as int, r.0, r.1),
        r.0 matches Stage::Known { from } ==> from <= lots@.len(),
        r.0 is Known || r.0 is Scan,
{
    let mut i: usize = from;
    while i < lots.len()
        invariant
            from <= i <= lots@.len(),
            first_busy(lots@, from as int) == first_busy(lots@, i as int),
        decreases lots@.len() - i,
    {
        if lots[i].busy() {
            return (Stage::Known { from: i + 1 }, Act::Manage { at: i });
        }
        i = i + 1;
    }
    (Stage::Scan, Act::Scan)
}

/// How a turn over lots starts: it stops where a lot is reserved twice, before
/// any order is looked after.
pub open spec fn begun(lots: Seq<State>, stage: Stage, act: Act) -> bool {
    if unique(reserved_by(lots, lots.len())) {
        known_on(lots, 0, stage, act)
    } else {
        act == Act::Halt && stage == Stage::Over
    }
}

/// Starts a turn over lots.
pub fn begin(lots: &Vec<State>) -> (r: (Turn, Act))
    requires
        lots@.len() <= LOTS_MAX,
        sound(lots@),
        in_order(lots@),
    ensures
        begun(lots@, r.0.stage, r.1),
        r.0.reserved@.len() == 0,
        r.0.claims@.len() == 0,
        r.0.plans@.len() == 0,
        r.0.groups@.len() == 0,
        r.0.off@.len() == 0,
        waits(r.0, lots@),
{
    let (stage, act): (Stage, Act) = match find_reserved(lots) {
        Some(_) => known(lots, 0),
        None => (Stage::Over, Act::Halt),
    };
    (
        Turn {
            stage,
            reserved: Vec::new(),
            claims: Vec::new(),
            plans: Vec::new(),
            groups: Vec::new(),
            off: Vec::new(),
        },
        act,
    )
}

fn find_free(lots: &Vec<State>, reserved: &Vec<String>, from: usize) -> (r: Option<usize>)
    requires
        from <= lots@.len(),
    ensures
        match r {
            Some(i) => first_free(lots@, reserved@, from as int) == Some(i as int) && from <= i
                < lots@.len() && is_free(lots@[i as int], reserved@),
            None => first_free(lots@, reserved@, from as int) is None,
        },
{
    let mut i: usize = from;
    while i < lots.len()
        invariant
            from <= i <= lots@.len(),
            first_free(lots@, reserved@, from as int) == first_free(lots@, reserved@, i as int),
        decreases lots@.len() - i,
    {
        let key: String = lots[i].key();
        match lot_step(lots[i].busy(), key.as_str(), reserved) {
            LotStep::Plan => {
                return Some(i);
            },
            _ => {},
        }
        i = i + 1;
    }
    None
}

fn find_owner(lots: &Vec<State>, o: &Order) -> (r: usize)
    requires
        is_owned(lots@, *o),
    ensures
        r < lots@.len(),
        owns(lots@[r as int], *o),
{
    let mut i: usize = 0;
    while i < lots.len()
        invariant
            i <= lots@.len(),
            is_owned(lots@, *o),
            forall|j: int| 0 <= j < i ==> !owns(#[trigger] lots@[j], *o),
        decreases lots@.len() - i,
    {
        if !lots[i].busy() && same(lots[i].rel_id.as_str(), o.rel_id.as_str())
            && lots[i].opened_bits == o.closes_ts {
            return i;
        }
        i = i + 1;
    }
    proof {
        let j = choose|j: int| 0 <= j < lots@.len() && owns(#[trigger] lots@[j], *o);
        assert(false);
    }
    0
}

fn resting_terms(lots: &Vec<State>) -> (r: Vec<Option<String>>)
    ensures
        r@.len() == lots@.len(),
        forall|w: int|
            0 <= w < lots@.len() ==> match #[trigger] r@[w] {
                Some(k) => rests_at(lots@[w], k@),
                None => forall|terms: Seq<char>| !rests_at(lots@[w], terms),
            },
{
    let mut out: Vec<Option<String>> = Vec::new();
    let mut n: usize = 0;
    while n < lots.len()
        invariant
            n <= lots@.len(),
            out@.len() == n,
            forall|w: int|
                0 <= w < n ==> match #[trigger] out@[w] {
                    Some(k) => rests_at(lots@[w], k@),
                    None => forall|terms: Seq<char>| !rests_at(lots@[w], terms),
                },
        decreases lots@.len() - n,
    {
        out.push(lots[n].passive_key());
        n = n + 1;
    }
    out
}

fn places_of(lots: &Vec<State>, terms: &str) -> (r: Vec<usize>)
    ensures
        lists(r@, lots@, terms@),
        r@.len() > 0 <==> exists|w: int| 0 <= w < lots@.len() && rests_at(
            #[trigger] lots@[w],
            terms@,
        ),
{
    let resting: Vec<Option<String>> = resting_terms(lots);
    let r: Vec<usize> = incumbents(&resting, terms);
    proof {
        assert forall|w: int| 0 <= w < lots@.len() implies (r@.contains(w as usize) <==> rests_at(
            #[trigger] lots@[w],
            terms@,
        )) by {
            let at = resting@[w];
            if at is Some && at->0@ != terms@ {
                assert(rests_at(lots@[w], at->0@));
            }
        }
        if r@.len() > 0 {
            let w = r@[0] as int;
            assert(r@.contains(w as usize));
            assert(rests_at(lots@[w], terms@));
        }
    }
    r
}

proof fn lemma_regroup_keeps(lots: Seq<State>, at: int)
    requires
        0 <= at < lots.len(),
        sound(lots),
        in_order(lots),
        regrouped(lots[at]).wf(),
    ensures
        sound(lots.update(at, regrouped(lots[at]))),
        in_order(lots.update(at, regrouped(lots[at]))),
        forall|o: Order| is_owned(lots, o) ==> #[trigger] is_owned(
            lots.update(at, regrouped(lots[at])),
            o,
        ),
{
    let now = lots.update(at, regrouped(lots[at]));
    assert forall|i: int, j: int| 0 <= i < j < now.len() implies before(
        key_of(#[trigger] now[i]),
        key_of(#[trigger] now[j]),
    ) by {
        assert(key_of(now[i]) == key_of(lots[i]));
        assert(key_of(now[j]) == key_of(lots[j]));
    }
    assert forall|o: Order| is_owned(lots, o) implies #[trigger] is_owned(now, o) by {
        let i = choose|i: int| 0 <= i < lots.len() && owns(#[trigger] lots[i], o);
        assert(owns(now[i], o));
    }
}

fn take_off(lots: &mut Vec<State>, at: usize)
    requires
        at < old(lots)@.len(),
        sound(old(lots)@),
        in_order(old(lots)@),
    ensures
        final(lots)@ == old(lots)@.update(at as int, regrouped(old(lots)@[at as int])),
        sound(final(lots)@),
        in_order(final(lots)@),
        forall|o: Order| is_owned(old(lots)@, o) ==> #[trigger] is_owned(final(lots)@, o),
{
    assert(lots@[at as int].wf());
    lots[at].request_regroup();
    proof {
        lemma_regroup_keeps(old(lots)@, at as int);
        assert(lots@ =~= old(lots)@.update(at as int, regrouped(old(lots)@[at as int])));
    }
}

/// The first group from `from` on that is not skipped, what becomes of it, and
/// the orders that rest at its terms.
fn find_work(
    lots: &Vec<State>,
    groups: &Vec<(String, Vec<Order>)>,
    from: usize,
    outstanding: u64,
    fees: &FeeSchedule,
    view: Option<&EngineView>,
) -> (r: Option<(usize, GroupStep, Vec<usize>)>)
    requires
        from <= groups@.len(),
        workable(lots@, groups@, from as int),
        fees.wf(),
    ensures
        match r {
            Some((g, step, places)) => {
                &&& first_work(lots@, groups@, from as int, outstanding, *fees, view) == Some(
                    g as int,
                )
                &&& from <= g < groups@.len()
                &&& step == fate(lots@, groups@[g as int], outstanding, *fees, view)
                &&& !(step is Skip)
                &&& lists(places@, lots@, groups@[g as int].0@)
                &&& step is Regroup <==> places@.len() > 0
            },
            None => first_work(lots@, groups@, from as int, outstanding, *fees, view) is None,
        },
{
    let mut g: usize = from;
    while g < groups.len()
        invariant
            from <= g <= groups@.len(),
            workable(lots@, groups@, from as int),
            fees.wf(),
            first_work(lots@, groups@, from as int, outstanding, *fees, view) == first_work(
                lots@,
                groups@,
                g as int,
                outstanding,
                *fees,
                view,
            ),
        decreases groups@.len() - g,
    {
        let places: Vec<usize> = places_of(lots, groups[g].0.as_str());
        assert(tradable(groups@[g as int].1@));
        let step: GroupStep = group_step(places.len(), outstanding, fees, &groups[g].1, view);
        match step {
            GroupStep::Skip => {},
            _ => {
                return Some((g, step, places));
            },
        }
        g = g + 1;
    }
    None
}

/// Works the groups from `from` on, as far as the next action.
fn work(
    t: &mut Turn,
    lots: &mut Vec<State>,
    from: usize,
    outstanding: u64,
    fees: &FeeSchedule,
    view: Option<&EngineView>,
) -> (act: Act)
    requires
        old(lots)@.len() <= LOTS_MAX,
        sound(old(lots)@),
        in_order(old(lots)@),
        from <= old(t).groups@.len(),
        workable(old(lots)@, old(t).groups@, from as int),
        fees.wf(),
    ensures
        worked_on(
            old(lots)@,
            *final(t),
            from as int,
            outstanding,
            *fees,
            view,
            final(lots)@,
            act,
        ),
        *final(t) == (Turn { stage: final(t).stage, off: final(t).off, ..*old(t) }),
        waits(*final(t), final(lots)@),
{
    match find_work(lots, &t.groups, from, outstanding, fees, view) {
        Some((g, GroupStep::Regroup, places)) => regroup(t, lots, from, g, &places),
        Some((g, GroupStep::Place, _)) => set_out(t, lots, from, g),
        _ => {
            t.off = Vec::new();
            t.stage = Stage::Over;
            Act::Rest
        },
    }
}

/// Takes off the first of the orders that rest at the terms of a group.
fn regroup(
    t: &mut Turn,
    lots: &mut Vec<State>,
    from: usize,
    g: usize,
    places: &Vec<usize>,
) -> (act: Act)
    requires
        old(lots)@.len() <= LOTS_MAX,
        sound(old(lots)@),
        in_order(old(lots)@),
        from <= g < old(t).groups@.len(),
        workable(old(lots)@, old(t).groups@, from as int),
        lists(places@, old(lots)@, old(t).groups@[g as int].0@),
        places@.len() > 0,
    ensures
        act is TakeOff,
        lists(seq![act->TakeOff_at] + final(t).off@, old(lots)@, old(t).groups@[g as int].0@),
        final(lots)@ == old(lots)@.update(
            act->TakeOff_at as int,
            regrouped(old(lots)@[act->TakeOff_at as int]),
        ),
        final(t).stage == (Stage::Work { from: (g + 1) as usize }),
        *final(t) == (Turn { stage: final(t).stage, off: final(t).off, ..*old(t) }),
        waits(*final(t), final(lots)@),
{
    let ghost pre = lots@;
    let ghost all = t.groups@;
    assert(t.groups.len() == all.len());
    let at: usize = places[0];
    let off: Vec<usize> = all_but_first(places);
    proof {
        assert(seq![at] + off@ =~= places@);
        assert forall|i: int| 0 <= i < off@.len() implies (#[trigger] off@[i]) < pre.len() by {
            assert(off@[i] == places@[i + 1]);
        }
    }
    take_off(lots, at);
    t.off = off;
    t.stage = Stage::Work { from: g + 1 };
    proof {
        assert forall|h: int| g + 1 <= h < all.len() implies (#[trigger] all[h]).1@.len() > 0
            && tradable(all[h].1@) && all_owned(lots@, all[h].1@) by {
            assert(all_owned(pre, all[h].1@));
        }
    }
    Act::TakeOff { at }
}

/// Sets out to place the order of a group.
fn set_out(t: &mut Turn, lots: &Vec<State>, from: usize, g: usize) -> (act: Act)
    requires
        lots@.len() <= LOTS_MAX,
        sound(lots@),
        in_order(lots@),
        from <= g < old(t).groups@.len(),
        workable(lots@, old(t).groups@, from as int),
    ensures
        act is Place,
        act->members@ == old(t).groups@[g as int].1@,
        act->Place_at < lots@.len(),
        act->members@.len() > 0,
        owns(lots@[act->Place_at as int], act->members@[0]),
        final(t).off@.len() == 0,
        final(t).stage == (Stage::Work { from: (g + 1) as usize }),
        *final(t) == (Turn { stage: final(t).stage, off: final(t).off, ..*old(t) }),
        waits(*final(t), lots@),
{
    let ghost all = t.groups@;
    assert(t.groups.len() == all.len());
    assert(all[g as int].1@.len() > 0);
    assert(is_owned(lots@, all[g as int].1@[0]));
    let at: usize = find_owner(lots, &t.groups[g].1[0]);
    let members: Vec<Order> = copy_orders(&t.groups[g].1);
    t.off = Vec::new();
    t.stage = Stage::Work { from: g + 1 };
    Act::Place { at, members }
}

fn all_but_first(v: &Vec<usize>) -> (r: Vec<usize>)
    requires
        v@.len() > 0,
    ensures
        r@ == v@.drop_first(),
{
    let mut out: Vec<usize> = Vec::new();
    let mut i: usize = 1;
    while i < v.len()
        invariant
            1 <= i <= v@.len(),
            out@ == v@.subrange(1, i as int),
        decreases v@.len() - i,
    {
        out.push(v[i]);
        assert(out@ =~= v@.subrange(1, i + 1));
        i = i + 1;
    }
    out
}

fn copy_orders(v: &Vec<Order>) -> (r: Vec<Order>)
    ensures
        r@ == v@,
{
    let mut out: Vec<Order> = Vec::new();
    let mut i: usize = 0;
    while i < v.len()
        invariant
            i <= v@.len(),
            out@ == v@.take(i as int),
        decreases v@.len() - i,
    {
        out.push(v[i].clone());
        assert(out@ =~= v@.take(i + 1));
        i = i + 1;
    }
    assert(v@.take(v@.len() as int) =~= v@);
    out
}

/// The keys that the first `n` lots have reserved, one lot after the other.
pub open spec fn reserved_by(lots: Seq<State>, n: nat) -> Seq<Seq<char>>
    decreases n,
{
    if n == 0 {
        Seq::empty()
    } else {
        reserved_by(lots, (n - 1) as nat) + lots[n - 1].reserves()
    }
}

fn find_reserved(lots: &Vec<State>) -> (r: Option<Vec<String>>)
    ensures
        match r {
            Some(v) => texts(v@) == reserved_by(lots@, lots@.len()) && unique(texts(v@)),
            None => !unique(reserved_by(lots@, lots@.len())),
        },
{
    let mut owners: Vec<Vec<String>> = Vec::new();
    let mut n: usize = 0;
    while n < lots.len()
        invariant
            n <= lots@.len(),
            owners@.len() == n,
            forall|i: int| 0 <= i < n ==> texts((#[trigger] owners@[i])@) == lots@[i].reserves(),
        decreases lots@.len() - n,
    {
        owners.push(lots[n].reserved_keys());
        n = n + 1;
    }
    proof {
        lemma_reserved_by(lots@, owners@, lots@.len());
    }
    reservations(&owners)
}

proof fn lemma_reserved_by(lots: Seq<State>, owners: Seq<Vec<String>>, n: nat)
    requires
        n <= lots.len(),
        owners.len() == lots.len(),
        forall|i: int|
            0 <= i < lots.len() ==> texts((#[trigger] owners[i])@) == lots[i].reserves(),
    ensures
        crate::batch::all_reserved(owners, n) == reserved_by(lots, n),
    decreases n,
{
    if n > 0 {
        lemma_reserved_by(lots, owners, (n - 1) as nat);
        assert(texts(owners[n - 1]@) == lots[n - 1].reserves());
    }
}

proof fn lemma_group_is_planned(plans: Seq<Order>, keys: Seq<Seq<char>>, k: Seq<char>, n: nat)
    requires
        n <= plans.len(),
    ensures
        forall|m: int|
            0 <= m < of_key(plans, keys, k, n).len() ==> plans.contains(
                #[trigger] of_key(plans, keys, k, n)[m],
            ),
    decreases n,
{
    if n > 0 {
        lemma_group_is_planned(plans, keys, k, (n - 1) as nat);
        let rest = of_key(plans, keys, k, (n - 1) as nat);
        let all = of_key(plans, keys, k, n);
        assert forall|m: int| 0 <= m < all.len() implies plans.contains(#[trigger] all[m]) by {
            if m < rest.len() {
                assert(all[m] == rest[m]);
            } else {
                assert(all[m] == plans[n - 1]);
            }
        }
    }
}

/// The groups of plans can be worked where the plans are for lots with no order
/// out.
proof fn lemma_groups_are_workable(
    lots: Seq<State>,
    plans: Seq<Order>,
    groups: Seq<(String, Vec<Order>)>,
)
    requires
        tradable(plans),
        all_owned(lots, plans),
        grouped(groups, plans, group_keys_of(plans)),
    ensures
        workable(lots, groups, 0),
{
    broadcast use vstd::seq_lib::group_to_multiset_ensures;

    assert forall|g: int| 0 <= g < groups.len() implies (#[trigger] groups[g]).1@.len() > 0
        && tradable(groups[g].1@) && all_owned(lots, groups[g].1@) by {
        let own = of_key(plans, group_keys_of(plans), groups[g].0@, plans.len());
        lemma_group_is_planned(plans, group_keys_of(plans), groups[g].0@, plans.len());
        law_the_oldest_lot_comes_first(own);
        let sorted = groups[g].1@;
        assert(sorted == oldest_first(own));
        assert forall|m: int| 0 <= m < sorted.len() implies qty_ok((#[trigger] sorted[m]).qty)
            && is_owned(lots, sorted[m]) by {
            assert(sorted.contains(sorted[m]));
            assert(sorted.to_multiset().count(sorted[m]) > 0);
            assert(own.to_multiset().count(sorted[m]) > 0);
            assert(own.contains(sorted[m]));
            let i = choose|i: int| 0 <= i < own.len() && own[i] == sorted[m];
            assert(plans.contains(own[i]));
            let p = choose|p: int| 0 <= p < plans.len() && plans[p] == own[i];
            assert(qty_ok(plans[p].qty));
            assert(is_owned(lots, plans[p]));
        }
    }
}

// ------------------------------------------------------------------ the steps

/// What follows once the candidates are known: every lot is taken in, and the
/// first that may be priced is.
pub open spec fn scanned(
    pre: Seq<State>,
    exits: Seq<Exit>,
    post: Seq<State>,
    u: Turn,
    act: Act,
) -> bool {
    &&& admitted(pre, exits, exits.len() as int, post)
    &&& u.plans@.len() == 0
    &&& if !unique(reserved_by(post, post.len())) {
        act == Act::Halt && u.stage == Stage::Over
    } else {
        &&& texts(u.reserved@) == reserved_by(post, post.len())
        &&& budgeted(u.claims@, post, post.len(), Seq::empty())
        &&& match first_free(post, u.reserved@, 0) {
            Some(i) => act == (Act::Price { at: i as usize }) && u.stage == (Stage::Price {
                at: i as usize,
            }),
            None => act == Act::Rest && u.stage == Stage::Over,
        }
    }
}

/// What follows once a lot was priced: what it would rest is claimed, and the
/// next lot is priced, or the groups are worked where there is none.
pub open spec fn priced(
    t: Turn,
    at: int,
    order: Option<Order>,
    pre: Seq<State>,
    outstanding: u64,
    fees: FeeSchedule,
    view: Option<&EngineView>,
    u: Turn,
    post: Seq<State>,
    act: Act,
) -> bool {
    &&& u.plans@ == (match order {
        Some(o) => t.plans@.push(o),
        None => t.plans@,
    })
    &&& u.reserved == t.reserved
    &&& budgeted(u.claims@, pre, pre.len(), u.plans@)
    &&& match first_free(pre, t.reserved@, at + 1) {
        Some(i) => {
            &&& act == (Act::Price { at: i as usize })
            &&& u.stage == (Stage::Price { at: i as usize })
            &&& post == pre
        },
        None => {
            &&& grouped(u.groups@, u.plans@, group_keys_of(u.plans@))
            &&& worked_on(pre, u, 0, outstanding, fees, view, post, act)
        },
    }
}

/// What follows an event.
pub open spec fn moved(
    t: Turn,
    pre: Seq<State>,
    event: Event,
    outstanding: u64,
    fees: FeeSchedule,
    view: Option<&EngineView>,
    u: Turn,
    post: Seq<State>,
    act: Act,
) -> bool {
    match t.stage {
        Stage::Known { from } => {
            &&& known_on(pre, from as int, u.stage, act)
            &&& u == (Turn { stage: u.stage, ..t })
            &&& post == pre
        },
        Stage::Scan => scanned(pre, event->exits@, post, u, act),
        Stage::Price { at } => priced(
            t,
            at as int,
            event->order,
            pre,
            outstanding,
            fees,
            view,
            u,
            post,
            act,
        ),
        Stage::Work { from } => if t.off@.len() > 0 {
            &&& act == (Act::TakeOff { at: t.off@[0] })
            &&& post == pre.update(t.off@[0] as int, regrouped(pre[t.off@[0] as int]))
            &&& u.off@ == t.off@.drop_first()
            &&& u == (Turn { off: u.off, ..t })
        } else {
            &&& worked_on(pre, u, from as int, outstanding, fees, view, post, act)
            &&& u == (Turn { stage: u.stage, off: u.off, ..t })
        },
        Stage::Over => act == Act::Rest && u == t && post == pre,
    }
}

fn scan(t: &mut Turn, lots: &mut Vec<State>, exits: &Vec<Exit>) -> (act: Act)
    requires
        waits(*old(t), old(lots)@),
        old(t).stage == Stage::Scan,
        old(lots)@.len() + exits@.len() <= LOTS_MAX,
    ensures
        scanned(old(lots)@, exits@, final(lots)@, *final(t), act),
        waits(*final(t), final(lots)@),
{
    take_in(lots, exits);
    let reserved: Vec<String> = match find_reserved(lots) {
        None => {
            t.stage = Stage::Over;
            return Act::Halt;
        },
        Some(v) => v,
    };
    t.claims = claims_of(lots);
    t.reserved = reserved;
    assert(t.plans@ =~= Seq::<Order>::empty());
    match find_free(lots, &t.reserved, 0) {
        Some(i) => {
            t.stage = Stage::Price { at: i };
            Act::Price { at: i }
        },
        None => {
            t.stage = Stage::Over;
            Act::Rest
        },
    }
}

/// Claims the contracts that a plan was sized to.
fn note_plan(t: &mut Turn, lots: &Vec<State>, at: usize, order: Option<Order>)
    requires
        waits(*old(t), lots@),
        old(t).stage == (Stage::Price { at }),
        order matches Some(o) ==> qty_ok(o.qty) && owns(lots@[at as int], o),
    ensures
        final(t).plans@ == (match order {
            Some(o) => old(t).plans@.push(o),
            None => old(t).plans@,
        }),
        *final(t) == (Turn { plans: final(t).plans, claims: final(t).claims, ..*old(t) }),
        tradable(final(t).plans@),
        all_owned(lots@, final(t).plans@),
        final(t).plans@.len() <= at + 1,
        budgeted(final(t).claims@, lots@, lots@.len(), final(t).plans@),
{
    match order {
        None => {},
        Some(o) => {
            let key: String = close_depth_key(
                o.direction,
                o.shape,
                o.market.as_str(),
                o.pm_market.as_str(),
            );
            let ghost held = t.claims@;
            let ghost plans = t.plans@;
            proof {
                lemma_spoken_fits(lots@, lots@.len(), key@);
                lemma_planned_fits(plans, plans.len(), key@);
                let n = lots@.len();
                let p = plans.len();
                assert((n + p) * QTY_MAX <= 2 * LOTS_MAX * QTY_MAX) by (nonlinear_arith)
                    requires
                        n <= LOTS_MAX,
                        p <= LOTS_MAX,
                ;
                assert((n + p) * QTY_MAX == n * QTY_MAX + p * QTY_MAX) by (nonlinear_arith);
                assert(claimed(held, key@) == spoken(lots@, n, key@) + planned(plans, p, key@));
            }
            claim(&mut t.claims, key.as_str(), o.qty);
            let ghost planned_now = plans.push(o);
            proof {
                assert forall|k: Seq<char>| #[trigger]
                    claimed(t.claims@, k) == spoken(lots@, lots@.len(), k) + planned(
                        planned_now,
                        planned_now.len(),
                        k,
                    ) by {
                    assert(claimed(held, k) == spoken(lots@, lots@.len(), k) + planned(
                        plans,
                        plans.len(),
                        k,
                    ));
                    lemma_planned_before(plans, o, plans.len(), k);
                    assert(planned_now[plans.len() as int] == o);
                    assert(planned_now.len() - 1 == plans.len());
                }
                assert(is_owned(lots@, o)) by {
                    assert(owns(lots@[at as int], o));
                }
                assert forall|m: int| 0 <= m < planned_now.len() implies is_owned(
                    lots@,
                    #[trigger] planned_now[m],
                ) && qty_ok(planned_now[m].qty) by {
                    if m < plans.len() {
                        assert(planned_now[m] == plans[m]);
                        assert(is_owned(lots@, plans[m]));
                    }
                }
            }
            t.plans.push(o);
        },
    }
}

fn price(
    t: &mut Turn,
    lots: &mut Vec<State>,
    at: usize,
    order: Option<Order>,
    outstanding: u64,
    fees: &FeeSchedule,
    view: Option<&EngineView>,
) -> (act: Act)
    requires
        waits(*old(t), old(lots)@),
        old(t).stage == (Stage::Price { at }),
        order matches Some(o) ==> qty_ok(o.qty) && owns(old(lots)@[at as int], o),
        fees.wf(),
    ensures
        priced(
            *old(t),
            at as int,
            order,
            old(lots)@,
            outstanding,
            *fees,
            view,
            *final(t),
            final(lots)@,
            act,
        ),
        waits(*final(t), final(lots)@),
{
    note_plan(t, lots, at, order);
    match find_free(lots, &t.reserved, at + 1) {
        Some(i) => {
            t.stage = Stage::Price { at: i };
            Act::Price { at: i }
        },
        None => {
            t.groups = groups(&t.plans);
            proof {
                lemma_groups_are_workable(lots@, t.plans@, t.groups@);
            }
            work(t, lots, 0, outstanding, fees, view)
        },
    }
}

/// Takes off the next of the orders that are to come off for the group at work.
fn take_off_next(t: &mut Turn, lots: &mut Vec<State>) -> (act: Act)
    requires
        waits(*old(t), old(lots)@),
        old(t).stage is Work,
        old(t).off@.len() > 0,
    ensures
        act == (Act::TakeOff { at: old(t).off@[0] }),
        final(lots)@ == old(lots)@.update(
            old(t).off@[0] as int,
            regrouped(old(lots)@[old(t).off@[0] as int]),
        ),
        final(t).off@ == old(t).off@.drop_first(),
        *final(t) == (Turn { off: final(t).off, ..*old(t) }),
        waits(*final(t), final(lots)@),
{
    let ghost pre = lots@;
    let ghost all = t.groups@;
    let at: usize = t.off[0];
    let off: Vec<usize> = all_but_first(&t.off);
    proof {
        assert forall|i: int| 0 <= i < off@.len() implies (#[trigger] off@[i]) < pre.len() by {
            assert(off@[i] == t.off@[i + 1]);
        }
    }
    take_off(lots, at);
    t.off = off;
    proof {
        let from = t.stage->Work_from as int;
        assert forall|h: int| from <= h < all.len() implies (#[trigger] all[h]).1@.len() > 0
            && tradable(all[h].1@) && all_owned(lots@, all[h].1@) by {
            assert(all_owned(pre, all[h].1@));
        }
    }
    Act::TakeOff { at }
}

/// Takes in what came of the last action of a turn, and says what to do next.
pub fn next(
    t: &mut Turn,
    lots: &mut Vec<State>,
    event: Event,
    outstanding: u64,
    fees: &FeeSchedule,
    view: Option<&EngineView>,
) -> (act: Act)
    requires
        waits(*old(t), old(lots)@),
        answers(event, *old(t), old(lots)@),
        fees.wf(),
    ensures
        moved(
            *old(t),
            old(lots)@,
            event,
            outstanding,
            *fees,
            view,
            *final(t),
            final(lots)@,
            act,
        ),
        waits(*final(t), final(lots)@),
{
    match (t.stage, event) {
        (Stage::Known { from }, _) => {
            let (stage, act): (Stage, Act) = known(lots, from);
            t.stage = stage;
            act
        },
        (Stage::Scan, Event::Scanned { exits }) => scan(t, lots, &exits),
        (Stage::Price { at }, Event::Priced { order }) => price(
            t,
            lots,
            at,
            order,
            outstanding,
            fees,
            view,
        ),
        (Stage::Work { from }, _) => if t.off.len() > 0 {
            take_off_next(t, lots)
        } else {
            work(t, lots, from, outstanding, fees, view)
        },
        _ => Act::Rest,
    }
}

// --------------------------------------------------------------------- laws

/// Where a lot is reserved twice a turn stops before it looks after any order.
pub proof fn law_a_lot_reserved_twice_stops_the_turn(lots: Seq<State>, stage: Stage, act: Act)
    requires
        begun(lots, stage, act),
        !unique(reserved_by(lots, lots.len())),
    ensures
        act is Halt,
        stage is Over,
{
}

pub proof fn lemma_first_busy(lots: Seq<State>, from: int)
    requires
        0 <= from <= lots.len(),
    ensures
        match first_busy(lots, from) {
            Some(i) => from <= i < lots.len() && lots[i].active is Some && forall|j: int|
                from <= j < i ==> (#[trigger] lots[j]).active is None,
            None => forall|j: int| from <= j < lots.len() ==> (#[trigger] lots[j]).active is None,
        },
    decreases lots.len() - from,
{
    if from < lots.len() && lots[from].active is None {
        lemma_first_busy(lots, from + 1);
    }
}

proof fn lemma_first_free(lots: Seq<State>, reserved: Seq<String>, from: int)
    requires
        0 <= from <= lots.len(),
    ensures
        first_free(lots, reserved, from) matches Some(i) ==> from <= i < lots.len() && is_free(
            lots[i],
            reserved,
        ),
    decreases lots.len() - from,
{
    if from < lots.len() && !is_free(lots[from], reserved) {
        lemma_first_free(lots, reserved, from + 1);
    }
}

proof fn lemma_first_work(
    lots: Seq<State>,
    groups: Seq<(String, Vec<Order>)>,
    from: int,
    outstanding: u64,
    fees: FeeSchedule,
    view: Option<&EngineView>,
)
    requires
        0 <= from <= groups.len(),
    ensures
        first_work(lots, groups, from, outstanding, fees, view) matches Some(g) ==> from <= g
            < groups.len(),
    decreases groups.len() - from,
{
    if from < groups.len() {
        lemma_first_work(lots, groups, from + 1, outstanding, fees, view);
    }
}

/// Orders that are known are looked after before anything new is let in: a turn
/// asks for candidates only once no lot that it has still to look at has an
/// order out, and until then it does nothing but look after such lots.
pub proof fn law_known_orders_come_first(
    t: Turn,
    pre: Seq<State>,
    event: Event,
    outstanding: u64,
    fees: FeeSchedule,
    view: Option<&EngineView>,
    u: Turn,
    post: Seq<State>,
    act: Act,
)
    requires
        waits(t, pre),
        moved(t, pre, event, outstanding, fees, view, u, post, act),
        t.stage is Known,
    ensures
        act is Manage || act is Scan,
        act is Manage ==> pre[act->Manage_at as int].active is Some,
        act is Scan ==> forall|i: int|
            t.stage->Known_from <= i < pre.len() ==> (#[trigger] pre[i]).active is None,
{
    lemma_first_busy(pre, t.stage->Known_from as int);
}

/// A lot is priced only where no order of its own is out and no other lot's
/// order has reserved it.
pub proof fn law_a_reserved_lot_is_not_priced(
    t: Turn,
    pre: Seq<State>,
    event: Event,
    outstanding: u64,
    fees: FeeSchedule,
    view: Option<&EngineView>,
    u: Turn,
    post: Seq<State>,
    act: Act,
)
    requires
        waits(t, pre),
        moved(t, pre, event, outstanding, fees, view, u, post, act),
        post.len() <= LOTS_MAX,
        act is Price,
    ensures
        act->Price_at < post.len(),
        post[act->Price_at as int].active is None,
        !is_held(u.reserved@, key_of(post[act->Price_at as int])),
{
    match t.stage {
        Stage::Scan => {
            lemma_first_free(post, u.reserved@, 0);
        },
        Stage::Price { at } => {
            lemma_first_free(pre, t.reserved@, at + 1);
        },
        _ => {},
    }
}

/// Whether no more is claimed of any ladder than it holds.
pub open spec fn within_depth(view: EngineView, claims: Seq<(String, i64)>) -> bool {
    forall|k: Seq<char>|
        lookup(view.depth@, k) is Some ==> #[trigger] claimed(claims, k) <= lookup(
            view.depth@,
            k,
        )->0
}

/// One turn has one budget of each ladder: where every lot is sized within what
/// the orders that rest and the lots priced before it leave, all of them together
/// claim no more than the ladder holds.
pub proof fn law_a_turn_keeps_within_the_depth(
    t: Turn,
    order: Option<Order>,
    pre: Seq<State>,
    outstanding: u64,
    fees: FeeSchedule,
    view: Option<&EngineView>,
    u: Turn,
    post: Seq<State>,
    act: Act,
    seen: EngineView,
)
    requires
        waits(t, pre),
        t.stage is Price,
        moved(t, pre, Event::Priced { order }, outstanding, fees, view, u, post, act),
        within_depth(seen, t.claims@),
        order matches Some(o) ==> (left(
            seen,
            t.claims@,
            depth_key(o.direction, o.shape, o.closes_on()@),
        ) matches Some(n) ==> o.qty <= n),
    ensures
        within_depth(seen, u.claims@),
        forall|k: Seq<char>| #[trigger]
            claimed(u.claims@, k) == spoken(pre, pre.len(), k) + planned(
                u.plans@,
                u.plans@.len(),
                k,
            ),
{
    assert forall|k: Seq<char>| lookup(seen.depth@, k) is Some implies #[trigger] claimed(
        u.claims@,
        k,
    ) <= lookup(seen.depth@, k)->0 by {
        assert(claimed(t.claims@, k) <= lookup(seen.depth@, k)->0);
        match order {
            Some(o) => {
                lemma_planned_before(t.plans@, o, t.plans@.len(), k);
            },
            None => {},
        }
    }
}

/// An order is placed only where no order rests at the same terms, no leg is
/// naked, the engine's view is known, and every lot of it pays; and it is placed
/// under a lot that has no order out.
pub proof fn law_a_group_rests_once_and_only_where_it_pays(
    t: Turn,
    pre: Seq<State>,
    event: Event,
    outstanding: u64,
    fees: FeeSchedule,
    view: Option<&EngineView>,
    u: Turn,
    post: Seq<State>,
    act: Act,
)
    requires
        waits(t, pre),
        moved(t, pre, event, outstanding, fees, view, u, post, act),
        act is Place,
    ensures
        outstanding == 0,
        view is Some,
        owns(pre[act->Place_at as int], act->members@[0]),
        forall|m: int|
            0 <= m < act->members@.len() ==> !spoiled(fees, #[trigger] act->members@[m], *(view->0)),
        exists|g: int|
            0 <= g < u.groups@.len() && act->members@ == (#[trigger] u.groups@[g]).1@ && forall|w: int|
                0 <= w < pre.len() ==> !rests_at(#[trigger] pre[w], u.groups@[g].0@),
{
    let from = match t.stage {
        Stage::Work { from } => from as int,
        _ => 0,
    };
    lemma_first_work(pre, u.groups@, from, outstanding, fees, view);
    let g = first_work(pre, u.groups@, from, outstanding, fees, view)->0;
    assert(act->members@ == u.groups@[g].1@);
}

/// The place of a stage in a turn.
pub open spec fn place_of(stage: Stage) -> nat {
    match stage {
        Stage::Known { .. } => 0,
        Stage::Scan => 1,
        Stage::Price { .. } => 2,
        Stage::Work { .. } => 3,
        Stage::Over => 4,
    }
}

/// What is left of a stage.
pub open spec fn left_of(t: Turn, lots: Seq<State>) -> int {
    match t.stage {
        Stage::Known { from } => lots.len() - from,
        Stage::Price { at } => lots.len() - at,
        Stage::Work { from } => t.groups@.len() - from,
        _ => 0,
    }
}

/// A turn comes to an end: each step goes on to a later stage, or leaves less of
/// its own, or takes off one of the orders that are to come off.
pub proof fn law_a_turn_ends(
    t: Turn,
    pre: Seq<State>,
    event: Event,
    outstanding: u64,
    fees: FeeSchedule,
    view: Option<&EngineView>,
    u: Turn,
    post: Seq<State>,
    act: Act,
)
    requires
        waits(t, pre),
        moved(t, pre, event, outstanding, fees, view, u, post, act),
        post.len() <= LOTS_MAX,
        u.groups@.len() <= LOTS_MAX,
        !(act is Rest),
        !(act is Halt),
    ensures
        ({
            ||| place_of(t.stage) < place_of(u.stage)
            ||| place_of(t.stage) == place_of(u.stage) && 0 <= left_of(u, post) < left_of(t, pre)
            ||| place_of(t.stage) == place_of(u.stage) && left_of(u, post) == left_of(t, pre)
                && u.off@.len() < t.off@.len()
        }),
{
    match t.stage {
        Stage::Known { from } => {
            lemma_first_busy(pre, from as int);
        },
        Stage::Scan => {
            lemma_first_free(post, u.reserved@, 0);
        },
        Stage::Price { at } => {
            lemma_first_free(pre, t.reserved@, at + 1);
            lemma_first_work(pre, u.groups@, 0, outstanding, fees, view);
        },
        Stage::Work { from } => {
            lemma_first_work(pre, u.groups@, from as int, outstanding, fees, view);
        },
        Stage::Over => {},
    }
}

} // verus!
