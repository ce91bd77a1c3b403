//! That a pass over a lot loses no contract, and that a turn passes no lot over.
use crate::advance::{moved, parts_of, started, waits, Event, Failure, Go, Phase};
use crate::batch::{grouped, has_group, of_key};
use crate::board::EngineView;
use crate::closing::pay_refusal;
use crate::decide_laws::{law_a_close_lifts_the_ladder_it_is_sized_on, lifted};
use crate::decimal::fraction_of;
use crate::fees::FeeSchedule;
use crate::fill_laws::no_lower;
use crate::fills::OrderFill;
use crate::group::{law_shares_come_to_what_filled, not_negative, share, sharers, shares};
use crate::keys::law_the_oldest_lot_comes_first;
use crate::lot::{Active, State};
use crate::lot_laws::{
    law_a_lot_is_booked_no_worse_than_its_limits, law_a_lots_orders_leave_its_basket,
    law_fills_go_to_the_lots_they_reach,
};
use crate::lot_steps::{SendReply, TerminalReply};
use crate::order::Order;
use crate::text::lemma_before_irreflexive;
use crate::turn::{
    begun, fate, first_free, first_work, is_free, lemma_first_busy, reserved_by, rests_at,
    speaks_for, Act, Stage, Turn,
};
use crate::venue::{Direction, Shape, Side, Tif};
use vstd::prelude::*;

verus! {

// -------------------------------------------------------------- over one lot

/// The lots of an order are freed only on proof: it never landed, and five minutes
/// have gone by since it was sent; it is over and filled nothing; or all that it
/// filled is closed.
pub proof fn law_lots_are_freed_on_proof_alone(
    pre: State,
    phase: Phase,
    event: Event,
    post: State,
    last: u64,
    after: u64,
    fees: FeeSchedule,
    view: Option<&EngineView>,
    now: u64,
    go: Go,
)
    requires
        waits(pre, phase),
        moved(pre, phase, event, post, last, after, fees, view, now, go),
        post.active is None,
    ensures
        ({
            let a = pre.active->0;
            ||| {
                &&& phase is RestIdentity && event->answer is Absent
                &&& now > a.rest.book_us + 300_000_000
            }
            ||| {
                &&& phase is RestIdentity && event->answer is Found
                &&& a.filled == Some(a.hedged)
            }
            ||| {
                &&& phase is RestEnd || phase is RestGone
                &&& event->answered == (TerminalReply::Over { qty: 0 })
            }
            ||| {
                &&& phase is Booking && event->done
                &&& a.hedged + phase->Booking_got == a.filled->0
            }
        }),
        go is Done,
{
}

/// What a hedge closed is counted once it is booked, and not before; what is left
/// is owed as it was.
pub proof fn law_what_is_booked_is_no_longer_owed(
    pre: State,
    got: i64,
    done: bool,
    post: State,
    last: u64,
    after: u64,
    fees: FeeSchedule,
    view: Option<&EngineView>,
    now: u64,
    go: Go,
)
    requires
        waits(pre, Phase::Booking { got }),
        moved(
            pre,
            Phase::Booking { got },
            Event::Booked { done },
            post,
            last,
            after,
            fees,
            view,
            now,
            go,
        ),
    ensures
        !done ==> post == pre,
        done && post.active is None ==> pre.active->0.hedged + got == pre.active->0.filled->0,
        done ==> (post.active matches Some(b) ==> b.hedged == pre.active->0.hedged + got && b.filled
            == pre.active->0.filled && b.hedge is None && b.hedged < b.filled->0),
{
}

/// A hedge that was refused is off the books, so another may be made out; one
/// whose answer was lost stays, and none is made out beside it.
pub proof fn law_a_lost_hedge_is_not_sent_again(
    pre: State,
    reply: SendReply,
    post: State,
    last: u64,
    after: u64,
    fees: FeeSchedule,
    view: Option<&EngineView>,
    now: u64,
    go: Go,
)
    requires
        waits(pre, Phase::HedgeSent),
        moved(
            pre,
            Phase::HedgeSent,
            Event::Sent { reply },
            post,
            last,
            after,
            fees,
            view,
            now,
            go,
        ),
    ensures
        post.active is Some,
        post.active->0.hedge is None <==> reply is Rejected,
        reply is Unknown ==> post == pre && go is Failed,
        post.active->0.hedged == pre.active->0.hedged,
        post.active->0.filled == pre.active->0.filled,
{
}

/// The contracts of the parts to book, added up over the first `n` of them.
pub open spec fn booked_in_all(parts: Seq<(Order, u64)>, n: nat) -> int
    decreases n,
{
    if n == 0 {
        0
    } else {
        booked_in_all(parts, (n - 1) as nat) + parts[n - 1].0.qty
    }
}

proof fn lemma_sharers_carry_all(
    parts: Seq<(Order, u64)>,
    members: Seq<Order>,
    from: int,
    to: int,
    n: nat,
)
    requires
        n <= members.len(),
        sharers(members, from, to, n).len() <= parts.len(),
        forall|k: int|
            0 <= k < sharers(members, from, to, n).len() ==> (#[trigger] parts[k]).0.qty == share(
                members,
                sharers(members, from, to, n)[k],
                from,
                to,
            ),
    ensures
        booked_in_all(parts, sharers(members, from, to, n).len()) == shares(members, from, to, n),
    decreases n,
{
    if n > 0 {
        let was = sharers(members, from, to, (n - 1) as nat);
        let at = sharers(members, from, to, n);
        assert forall|k: int| 0 <= k < was.len() implies (#[trigger] parts[k]).0.qty == share(
            members,
            was[k],
            from,
            to,
        ) by {
            assert(at[k] == was[k]);
        }
        lemma_sharers_carry_all(parts, members, from, to, (n - 1) as nat);
        if share(members, n - 1, from, to) > 0 {
            assert(at[at.len() - 1] == n - 1);
            assert(parts[at.len() - 1].0.qty == share(members, n - 1, from, to));
        }
    }
}

/// The parts that are booked for what a hedge closed come to what it closed, and
/// each is an order of its own lot but for the quantity.
pub proof fn law_the_parts_come_to_what_was_closed(
    parts: Seq<(Order, u64)>,
    a: Active,
    got: i64,
)
    requires
        a.wf(),
        a.hedge is Some,
        1 <= got <= a.hedge->0.qty,
        parts_of(parts, a, got),
    ensures
        booked_in_all(parts, parts.len()) == got,
        forall|k: int|
            0 <= k < parts.len() ==> exists|i: int|
                0 <= i < a.lots().len() && (#[trigger] parts[k]).0 == (Order {
                    qty: parts[k].0.qty,
                    ..#[trigger] a.lots()[i]
                }) && 1 <= parts[k].0.qty <= a.lots()[i].qty,
{
    let (from, to) = (a.hedged as int, a.hedged + got);
    let lots = a.lots();
    let n = lots.len();
    let at = sharers(lots, from, to, n);
    assert forall|i: int| 0 <= i < lots.len() implies (#[trigger] lots[i]).qty >= 0 by {
        assert(crate::money::qty_ok(lots[i].qty));
    }
    assert(not_negative(lots));
    law_fills_go_to_the_lots_they_reach(lots, from, to, n);
    assert forall|k: int| 0 <= k < at.len() implies (#[trigger] parts[k]).0.qty == share(
        lots,
        at[k],
        from,
        to,
    ) by {
        crate::group::law_fills_are_shared_once(lots, at[k], from, from, to);
    }
    lemma_sharers_carry_all(parts, lots, from, to, n);
    law_shares_come_to_what_filled(lots, from, to);
    assert forall|k: int| 0 <= k < parts.len() implies exists|i: int|
        0 <= i < a.lots().len() && (#[trigger] parts[k]).0 == (Order {
            qty: parts[k].0.qty,
            ..#[trigger] a.lots()[i]
        }) && 1 <= parts[k].0.qty <= a.lots()[i].qty by {
        let i = at[k];
        assert(at.contains(i));
        crate::group::law_fills_are_shared_once(lots, i, from, from, to);
        assert(a.lots()[i] == lots[i]);
    }
}

// --------------------------------------------------------------- over a turn

/// Every lot with an order out is looked after, in order: where a turn goes on to
/// one, no lot that it passed over has an order out; and it asks for candidates
/// only once none that is left has.
pub proof fn law_no_known_order_is_passed_over(
    t: Turn,
    pre: Seq<State>,
    event: crate::turn::Event,
    outstanding: u64,
    fees: FeeSchedule,
    view: Option<&EngineView>,
    u: Turn,
    post: Seq<State>,
    act: Act,
)
    requires
        crate::turn::waits(t, pre),
        crate::turn::moved(t, pre, event, outstanding, fees, view, u, post, act),
        t.stage is Known,
    ensures
        act is Manage ==> {
            &&& t.stage->Known_from <= act->Manage_at < pre.len()
            &&& pre[act->Manage_at as int].active is Some
            &&& u.stage == (Stage::Known { from: (act->Manage_at + 1) as usize })
            &&& forall|j: int|
                t.stage->Known_from <= j < act->Manage_at ==> (#[trigger] pre[j]).active is None
        },
        !(act is Manage) ==> act is Scan && forall|j: int|
            t.stage->Known_from <= j < pre.len() ==> (#[trigger] pre[j]).active is None,
{
    lemma_first_busy(pre, t.stage->Known_from as int);
}

proof fn lemma_none_free_before(lots: Seq<State>, reserved: Seq<String>, from: int)
    requires
        0 <= from <= lots.len(),
    ensures
        match first_free(lots, reserved, from) {
            Some(i) => from <= i < lots.len() && is_free(lots[i], reserved) && forall|j: int|
                from <= j < i ==> !is_free(#[trigger] lots[j], reserved),
            None => forall|j: int| from <= j < lots.len() ==> !is_free(#[trigger] lots[j], reserved),
        },
    decreases lots.len() - from,
{
    if from < lots.len() && !is_free(lots[from], reserved) {
        lemma_none_free_before(lots, reserved, from + 1);
    }
}

/// Every lot that may be priced is: where a turn goes on from one lot to another,
/// none in between may be, and the groups are worked only once none is left. What
/// a lot would rest is planned, and nothing else.
pub proof fn law_no_free_lot_is_passed_over(
    t: Turn,
    pre: Seq<State>,
    order: Option<Order>,
    outstanding: u64,
    fees: FeeSchedule,
    view: Option<&EngineView>,
    u: Turn,
    post: Seq<State>,
    act: Act,
)
    requires
        crate::turn::waits(t, pre),
        t.stage is Price,
        crate::turn::moved(
            t,
            pre,
            crate::turn::Event::Priced { order },
            outstanding,
            fees,
            view,
            u,
            post,
            act,
        ),
    ensures
        order matches Some(o) ==> u.plans@ == t.plans@.push(o),
        order is None ==> u.plans@ == t.plans@,
        act is Price ==> t.stage->Price_at < act->Price_at < pre.len() && forall|j: int|
            t.stage->Price_at < j < act->Price_at ==> !is_free(#[trigger] pre[j], t.reserved@),
        !(act is Price) ==> forall|j: int|
            t.stage->Price_at < j < pre.len() ==> !is_free(#[trigger] pre[j], t.reserved@),
{
    lemma_none_free_before(pre, t.reserved@, t.stage->Price_at + 1);
}

proof fn lemma_skipped(
    lots: Seq<State>,
    groups: Seq<(String, Vec<Order>)>,
    from: int,
    outstanding: u64,
    fees: FeeSchedule,
    view: Option<&EngineView>,
)
    requires
        0 <= from <= groups.len(),
    ensures
        match first_work(lots, groups, from, outstanding, fees, view) {
            Some(g) => from <= g < groups.len() && !(fate(lots, groups[g], outstanding, fees, view)
                is Skip) && forall|j: int|
                from <= j < g ==> fate(lots, #[trigger] groups[j], outstanding, fees, view) is Skip,
            None => forall|j: int|
                from <= j < groups.len() ==> fate(
                    lots,
                    #[trigger] groups[j],
                    outstanding,
                    fees,
                    view,
                ) is Skip,
        },
    decreases groups.len() - from,
{
    if from < groups.len() && fate(lots, groups[from], outstanding, fees, view) is Skip {
        lemma_skipped(lots, groups, from + 1, outstanding, fees, view);
    }
}

/// What becomes of a group. Where an order rests at its terms, that one comes off
/// first. Nothing new rests while a leg is naked or the book is not known. A group
/// is placed exactly where every one of its orders crosses or still pays, and is
/// skipped otherwise.
pub proof fn law_a_group_is_placed_where_all_of_it_pays(
    lots: Seq<State>,
    g: (String, Vec<Order>),
    outstanding: u64,
    fees: FeeSchedule,
    view: Option<&EngineView>,
)
    ensures
        fate(lots, g, outstanding, fees, view) is Regroup <==> exists|w: int|
            0 <= w < lots.len() && rests_at(#[trigger] lots[w], g.0@),
        fate(lots, g, outstanding, fees, view) is Place ==> {
            &&& outstanding == 0
            &&& view is Some
            &&& forall|m: int|
                0 <= m < g.1@.len() ==> (#[trigger] g.1@[m]).cross is Some || pay_refusal(
                    fees,
                    g.1@[m],
                    *(view->0),
                ) is None
        },
        fate(lots, g, outstanding, fees, view) is Skip ==> {
            &&& outstanding == 0
            &&& view is Some
            &&& exists|m: int|
                0 <= m < g.1@.len() && (#[trigger] g.1@[m]).cross is None && pay_refusal(
                    fees,
                    g.1@[m],
                    *(view->0),
                ) is Some
        },
        fate(lots, g, outstanding, fees, view) is Stop ==> outstanding != 0 || view is None,
{
    if fate(lots, g, outstanding, fees, view) is Place {
        assert forall|m: int| 0 <= m < g.1@.len() implies (#[trigger] g.1@[m]).cross is Some
            || pay_refusal(fees, g.1@[m], *(view->0)) is None by {
            assert(!crate::batch::spoiled(fees, g.1@[m], *(view->0)));
        }
    }
    if fate(lots, g, outstanding, fees, view) is Skip {
        let m = choose|m: int|
            0 <= m < g.1@.len() && crate::batch::spoiled(fees, #[trigger] g.1@[m], *(view->0));
        assert(g.1@[m].cross is None);
    }
}

/// No group is passed over but one that is skipped: where a turn places one or
/// takes orders off for it, all before it since the last were skipped.
pub proof fn law_no_group_that_pays_is_passed_over(
    t: Turn,
    pre: Seq<State>,
    outstanding: u64,
    fees: FeeSchedule,
    view: Option<&EngineView>,
    u: Turn,
    post: Seq<State>,
    act: Act,
    j: int,
)
    requires
        crate::turn::waits(t, pre),
        t.stage is Work,
        t.off@.len() == 0,
        t.groups@.len() < usize::MAX,
        crate::turn::moved(
            t,
            pre,
            crate::turn::Event::Worked,
            outstanding,
            fees,
            view,
            u,
            post,
            act,
        ),
        t.stage->Work_from <= j < t.groups@.len(),
        u.stage is Work ==> j < u.stage->Work_from - 1,
        u.stage is Over ==> outstanding == 0 && view is Some,
    ensures
        fate(pre, t.groups@[j], outstanding, fees, view) is Skip,
{
    lemma_skipped(pre, t.groups@, t.stage->Work_from as int, outstanding, fees, view);
}

/// An order that rests speaks for its whole quantity on the ladder that its close
/// lifts, until it is over; one that crosses, or is over, speaks for nothing.
pub proof fn law_a_resting_order_speaks_for_its_close(s: State, a: Active, k: Seq<char>)
    requires
        s.active == Some(a),
    ensures
        a.order.cross is None && a.filled is None ==> speaks_for(
            s,
            lifted(a.order.direction, a.order.shape, a.order.market@, a.order.pm_market@),
        ) == a.order.qty,
        a.order.cross is Some || a.filled is Some ==> speaks_for(s, k) == 0,
        k != lifted(a.order.direction, a.order.shape, a.order.market@, a.order.pm_market@)
            ==> speaks_for(s, k) == 0,
{
    law_a_close_lifts_the_ladder_it_is_sized_on(
        a.order.direction,
        a.order.shape,
        a.order.market@,
        a.order.pm_market@,
    );
}

/// Whether an order is one of the first `n` plans, on the terms of a key.
pub open spec fn is_planned(
    plans: Seq<Order>,
    keys: Seq<Seq<char>>,
    k: Seq<char>,
    n: nat,
    o: Order,
) -> bool {
    exists|m: int| 0 <= m < n && #[trigger] keys[m] == k && plans[m] == o
}

proof fn lemma_of_key(plans: Seq<Order>, keys: Seq<Seq<char>>, k: Seq<char>, n: nat)
    requires
        n <= plans.len(),
        keys.len() == plans.len(),
    ensures
        forall|m: int|
            0 <= m < n && #[trigger] keys[m] == k ==> of_key(plans, keys, k, n).contains(plans[m]),
        forall|x: int|
            0 <= x < of_key(plans, keys, k, n).len() ==> is_planned(
                plans,
                keys,
                k,
                n,
                #[trigger] of_key(plans, keys, k, n)[x],
            ),
    decreases n,
{
    if n > 0 {
        lemma_of_key(plans, keys, k, (n - 1) as nat);
        let was = of_key(plans, keys, k, (n - 1) as nat);
        let now = of_key(plans, keys, k, n);
        assert forall|m: int| 0 <= m < n && #[trigger] keys[m] == k implies now.contains(
            plans[m],
        ) by {
            if m < n - 1 {
                assert(was.contains(plans[m]));
                let x = choose|x: int| 0 <= x < was.len() && was[x] == plans[m];
                assert(now[x] == plans[m]);
            } else {
                assert(now[now.len() - 1] == plans[m]);
            }
        }
        assert forall|x: int| 0 <= x < now.len() implies is_planned(
            plans,
            keys,
            k,
            n,
            #[trigger] now[x],
        ) by {
            if x < was.len() {
                assert(now[x] == was[x]);
                assert(is_planned(plans, keys, k, (n - 1) as nat, was[x]));
                let m = choose|m: int| 0 <= m < n - 1 && #[trigger] keys[m] == k && plans[m]
                    == was[x];
                assert(keys[m] == k && plans[m] == now[x]);
            } else {
                assert(keys[n - 1] == k && plans[n - 1] == now[x]);
            }
        }
    }
}

/// Every plan is in the group of its own terms, and every member of a group is a
/// plan on the terms of that group; no terms have two groups.
pub proof fn law_every_plan_is_in_the_group_of_its_terms(
    groups: Seq<(String, Vec<Order>)>,
    plans: Seq<Order>,
    keys: Seq<Seq<char>>,
    m: int,
    o: Order,
    f: int,
)
    requires
        grouped(groups, plans, keys),
        keys.len() == plans.len(),
        0 <= m < plans.len(),
        0 <= f < groups.len(),
        groups[f].1@.to_multiset().contains(o),
    ensures
        is_planned(plans, keys, groups[f].0@, plans.len(), o),
        exists|g: int|
            0 <= g < groups.len() && (#[trigger] groups[g]).0@ == keys[m]
                && groups[g].1@.to_multiset().contains(plans[m]),
        forall|g: int, h: int|
            0 <= g < h < groups.len() ==> (#[trigger] groups[g]).0@ != (#[trigger] groups[h]).0@,
{
    broadcast use vstd::seq_lib::group_to_multiset_ensures;

    assert(has_group(groups, keys[m]));
    let g = choose|g: int| 0 <= g < groups.len() && (#[trigger] groups[g]).0@ == keys[m];
    let of = of_key(plans, keys, groups[g].0@, plans.len());
    lemma_of_key(plans, keys, groups[g].0@, plans.len());
    law_the_oldest_lot_comes_first(of);
    assert(of.contains(plans[m]));
    assert(groups[g].1@.to_multiset() == of.to_multiset());
    let own = of_key(plans, keys, groups[f].0@, plans.len());
    lemma_of_key(plans, keys, groups[f].0@, plans.len());
    law_the_oldest_lot_comes_first(own);
    assert(own.contains(o));
    let x = choose|x: int| 0 <= x < own.len() && own[x] == o;
    assert(is_planned(plans, keys, groups[f].0@, plans.len(), own[x]));
    assert forall|g: int, h: int| 0 <= g < h < groups.len() implies (#[trigger] groups[g]).0@ != (
    #[trigger] groups[h]).0@ by {
        lemma_before_irreflexive(groups[g].0@);
    }
}

proof fn lemma_reserved_at(lots: Seq<State>, n: nat, i: int, x: int)
    requires
        0 <= i < n <= lots.len(),
        0 <= x < lots[i].reserves().len(),
    ensures
        reserved_by(lots, i as nat).len() + x < reserved_by(lots, n).len(),
        reserved_by(lots, n)[reserved_by(lots, i as nat).len() + x] == lots[i].reserves()[x],
        reserved_by(lots, (i + 1) as nat).len() == reserved_by(lots, i as nat).len()
            + lots[i].reserves().len(),
    decreases n,
{
    if i < n - 1 {
        lemma_reserved_at(lots, (n - 1) as nat, i, x);
    }
}

proof fn lemma_reserved_longer(lots: Seq<State>, n: nat, m: nat)
    requires
        n <= m <= lots.len(),
    ensures
        reserved_by(lots, n).len() <= reserved_by(lots, m).len(),
    decreases m,
{
    if n < m {
        lemma_reserved_longer(lots, n, (m - 1) as nat);
    }
}

/// A turn stops at once where two lots' orders have reserved the same lot, or one
/// order has reserved a lot twice.
pub proof fn law_two_orders_for_one_lot_stop_the_turn(
    lots: Seq<State>,
    stage: Stage,
    act: Act,
    i: int,
    x: int,
    j: int,
    y: int,
)
    requires
        begun(lots, stage, act),
        0 <= i < lots.len(),
        0 <= j < lots.len(),
        0 <= x < lots[i].reserves().len(),
        0 <= y < lots[j].reserves().len(),
        i < j || i == j && x < y,
        lots[i].reserves()[x] == lots[j].reserves()[y],
    ensures
        act is Halt,
        stage is Over,
{
    let all = reserved_by(lots, lots.len());
    lemma_reserved_at(lots, lots.len(), i, x);
    lemma_reserved_at(lots, lots.len(), j, y);
    let p = reserved_by(lots, i as nat).len() + x;
    let q = reserved_by(lots, j as nat).len() + y;
    if i < j {
        lemma_reserved_longer(lots, (i + 1) as nat, j as nat);
    }
    assert(p < q);
    assert(all[p] == all[q]);
}

/// Each try at a hedge counts. In the first ten it may wait for a price that pays,
/// and from the eleventh on it goes out, unless it cannot trade.
pub proof fn law_a_hedge_waits_for_ten_tries(
    pre: State,
    phase: Phase,
    event: Event,
    post: State,
    last: u64,
    after: u64,
    fees: FeeSchedule,
    view: Option<&EngineView>,
    now: u64,
    go: Go,
)
    requires
        waits(pre, phase),
        moved(pre, phase, event, post, last, after, fees, view, now, go),
        pre.active->0.attempts < u32::MAX,
    ensures
        go matches Go::Failed { why: Failure::Waits { .. } } ==> pre.active->0.attempts < 10
            && post.active->0.attempts == pre.active->0.attempts + 1,
        go matches Go::Failed { why: Failure::Stuck { .. } } ==> pre.active->0.attempts >= 10
            && post.active->0.attempts == pre.active->0.attempts + 1,
        go is Wait && go->act is Send ==> post.active->0.attempts == pre.active->0.attempts + 1,
{
}

/// A hedge takes the leg that did not rest, at once: on PM-US where its order rested
/// on Kalshi, and on Kalshi where it rested on PM-US; a purchase on PM-US and a sale
/// on Kalshi for a standard basket, and the other way round for an inverse one.
pub proof fn law_a_hedge_takes_the_leg_that_did_not_rest(
    pre: State,
    phase: Phase,
    event: Event,
    post: State,
    last: u64,
    after: u64,
    fees: FeeSchedule,
    view: Option<&EngineView>,
    now: u64,
    go: Go,
)
    requires
        waits(pre, phase),
        moved(pre, phase, event, post, last, after, fees, view, now, go),
        go is Wait,
        go->act is Send,
    ensures
        ({
            let o = pre.active->0.order;
            let req = go->act->Send_req;
            &&& req.market@ == (match o.shape {
                Shape::RestKalshi => o.pm_market@,
                Shape::RestPmUs => o.market@,
            })
            &&& req.side == Side::Bid <==> (o.shape == Shape::RestKalshi) == (o.direction
                == Direction::Standard)
            &&& req.tif == Tif::Ioc && !req.post_only
        }),
{
    let o = pre.active->0.order;
    let h = post.active->0.hedge->0;
    law_a_lots_orders_leave_its_basket(go->act->Send_req, h, o, true);
}

/// What a hedge closed is booked at prices no worse than those that its two orders
/// were sent at, on the side that each of them took.
pub proof fn law_a_hedge_is_booked_no_worse_than_it_was_sent(
    pre: State,
    got: i64,
    rest: Option<OrderFill>,
    close: Option<OrderFill>,
    post: State,
    last: u64,
    after: u64,
    fees: FeeSchedule,
    view: Option<&EngineView>,
    now: u64,
    go: Go,
    sent: (int, int),
    lim: (int, int),
)
    requires
        waits(pre, Phase::Prices { got }),
        moved(
            pre,
            Phase::Prices { got },
            Event::Priced { rest, close },
            post,
            last,
            after,
            fees,
            view,
            now,
            go,
        ),
        go is Wait,
        fraction_of(pre.active->0.rest.price@) == Some(sent),
        fraction_of(pre.active->0.hedge->0.price@) == Some(lim),
    ensures
        post == pre,
        go->phase == (Phase::Booking { got }),
        go->act is Book,
        booked_in_all(go->act->parts@, go->act->parts@.len()) == got,
        ({
            let o = pre.active->0.order;
            let first_sells = (o.direction == Direction::Standard) == (o.shape
                == Shape::RestKalshi);
            &&& fraction_of(go->act->rest@) matches Some(x) && (if first_sells {
                no_lower(x, sent)
            } else {
                no_lower(sent, x)
            })
            &&& fraction_of(go->act->close@) matches Some(y) && (if first_sells {
                no_lower(lim, y)
            } else {
                no_lower(y, lim)
            })
        }),
{
    let a = pre.active->0;
    law_a_lot_is_booked_no_worse_than_its_limits(
        a.order,
        a.rest.price@,
        a.hedge->0.price@,
        rest,
        close,
        sent,
        lim,
    );
    law_the_parts_come_to_what_was_closed(go->act->parts@, a, got);
}

/// A pass over a lot starts with the order that it knows: one whose answer was lost
/// cannot be told on PM-US, so nothing is done, and on Kalshi is asked for by its id;
/// of one that is known, it is asked first whether it is over.
pub proof fn law_a_pass_starts_with_the_order_it_knows(
    pre: State,
    post: State,
    last: u64,
    after: u64,
    fees: FeeSchedule,
    view: Option<&EngineView>,
    now: u64,
    go: Go,
)
    requires
        pre.wf(),
        pre.active is Some,
        started(pre, post, last, after, fees, view, now, go),
    ensures
        ({
            let a = pre.active->0;
            &&& a.rest.id is None && a.order.shape == Shape::RestPmUs ==> post == pre && go
                == (Go::Failed { why: Failure::AckLost { hedge: false } })
            &&& a.rest.id is None && a.order.shape == Shape::RestKalshi ==> post == pre && go is Wait
                && go->phase is RestIdentity && go->act is Recover
                && go->act->Recover_req.client_order_id@ == a.rest.client@
                && go->act->Recover_req.market@ == a.order.market@
            &&& a.rest.id is Some && a.filled is None ==> post == pre && go is Wait && go->phase
                is RestEnd
        }),
{
}

/// Once the first order is over, what it filled is owed, and nothing of it is closed
/// yet. A count that is not within what was ordered is not believed, and one that
/// rests on or cannot be read changes nothing.
pub proof fn law_what_the_first_order_filled_is_owed(
    pre: State,
    phase: Phase,
    answered: TerminalReply,
    post: State,
    last: u64,
    after: u64,
    fees: FeeSchedule,
    view: Option<&EngineView>,
    now: u64,
    go: Go,
)
    requires
        phase is RestEnd || phase is RestGone,
        waits(pre, phase),
        moved(pre, phase, Event::End { answered }, post, last, after, fees, view, now, go),
    ensures
        match answered {
            TerminalReply::Over { qty } => if 1 <= qty <= pre.active->0.order.qty {
                &&& post.active matches Some(b) && b.filled == Some(qty) && b.hedged == 0
                    && b.order == pre.active->0.order
                &&& go is Wait || go is Failed
            } else if qty == 0 {
                post.active is None && go is Done
            } else {
                post == pre && go == (Go::Failed { why: Failure::EndUnconfirmed })
            },
            TerminalReply::Open => post == pre && (if phase is RestEnd {
                go is Wait && go->phase is RestFills
            } else {
                go == (Go::Failed { why: Failure::NotOver })
            }),
            TerminalReply::Unreadable => post == pre && go == (Go::Failed {
                why: Failure::EndUnconfirmed,
            }),
        },
{
}

/// Once a hedge is over, what it filled is to be priced and booked; one that filled
/// nothing is off, and as much is owed as before. A count that is not within what
/// was sent is not believed, and one that rests on or cannot be read stays out.
pub proof fn law_what_a_hedge_filled_is_booked(
    pre: State,
    answered: TerminalReply,
    post: State,
    last: u64,
    after: u64,
    fees: FeeSchedule,
    view: Option<&EngineView>,
    now: u64,
    go: Go,
)
    requires
        waits(pre, Phase::HedgeEnd),
        moved(
            pre,
            Phase::HedgeEnd,
            Event::End { answered },
            post,
            last,
            after,
            fees,
            view,
            now,
            go,
        ),
    ensures
        match answered {
            TerminalReply::Over { qty } => if 1 <= qty <= pre.active->0.hedge->0.qty {
                post == pre && go is Wait && go->phase == (Phase::Prices { got: qty })
            } else if qty == 0 {
                post.active matches Some(b) && b.hedge is None && b.hedged == pre.active->0.hedged
                    && b.filled == pre.active->0.filled && go is Failed
            } else {
                post == pre && go is Failed
            },
            _ => post == pre && go is Failed,
        },
{
}

} // verus!
