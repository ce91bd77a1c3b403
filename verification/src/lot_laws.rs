//! What the orders of a lot do, how its age is counted, and how what fills is
//! shared, hedged and booked.
use crate::board::EngineView;
use crate::closing::pay_refusal;
use crate::decimal::fraction_of;
use crate::fees::FeeSchedule;
use crate::fill_laws::{law_plausible_prices_are_close_together, lemma_booked, no_lower};
use crate::fills::{booked_at, OrderFill};
use crate::group::{
    aggregated, group_keys_of, joins, lot_keys_of, reserved, share, sharers, taken,
};
use crate::hedge::{
    cross_price, hedge_price, law_a_group_hedge_suits_every_lot, part_of, CrossRefusal,
    HedgeRefusal,
};
use crate::ids::{at_once, law_ids_in_a_row_are_distinct, next_id};
use crate::keys::{group_terms, lot_digest, opened_later};
use crate::lot::{asked_by, load_refusal, placed_when, Active, LoadRefusal, Receipt, State};
use crate::lot_steps::{
    first_stale, hedge_plan, lot_prices, made_out, number_of, proves_refusal, rest_plan, stops,
};
use crate::money::Px;
use crate::turn::regrouped;
use crate::order::{far_side, own_side, Order};
use crate::venue::{Direction, PlaceRequest, Shape, Side, Tif, Venue};
use vstd::prelude::*;

verus! {

/// The orders of a lot leave its basket. A standard basket is left by a sale on
/// Kalshi and a purchase on PM-US, and an inverse one by a purchase on Kalshi and
/// a sale on PM-US, whichever of them goes first. The first order rests,
/// post-only, until it is cancelled, unless the exit crosses; the hedge takes at
/// once. Price, quantity and id are those of the receipt.
pub proof fn law_a_lots_orders_leave_its_basket(
    req: PlaceRequest,
    rc: Receipt,
    o: Order,
    hedge: bool,
)
    requires
        asked_by(req, rc, o, hedge),
    ensures
        ({
            let on_kalshi = (o.shape == Shape::RestKalshi) != hedge;
            &&& req.market@ == (if on_kalshi {
                o.market@
            } else {
                o.pm_market@
            })
            &&& req.side == Side::Ask <==> (o.direction == Direction::Standard) == on_kalshi
        }),
        req.post_only <==> !hedge && o.cross is None,
        req.tif == Tif::Gtc <==> req.post_only,
        req.price@ == rc.price@,
        req.qty == rc.qty,
        req.client_order_id@ == rc.client@,
{
}

/// An exit rests on the asks where it sells and on the bids where it buys, and
/// lifts the other side; so the two are the two sides of a book.
pub proof fn law_an_exit_rests_and_lifts_opposite_sides(direction: Direction, venue: Venue)
    ensures
        own_side(direction, venue) == Side::Ask <==> (direction == Direction::Standard) == (venue
            == Venue::Kalshi),
        far_side(direction, venue) == Side::Bid <==> own_side(direction, venue) == Side::Ask,
        own_side(direction, venue) != far_side(direction, venue),
        own_side(direction, venue).name() != far_side(direction, venue).name(),
{
    reveal_strlit("ask");
    reveal_strlit("bid");
    assert("ask"@[0] == 'a');
    assert("bid"@[0] == 'b');
}

/// An order is as old as the time of day says, to the microsecond, by whatever
/// clock ages are counted: it was placed no later than now, and of two orders the
/// one that was sent later was placed no earlier.
pub proof fn law_an_order_is_as_old_as_the_day_says(a: u64, b: u64, wall_us: u64, now: u64)
    requires
        a <= b <= wall_us,
        (wall_us - a) * 1_000 <= now,
    ensures
        now - placed_when(a, wall_us, now) == (wall_us - a) * 1_000,
        placed_when(a, wall_us, now) <= placed_when(b, wall_us, now) <= now,
        placed_when(b, wall_us, now) - placed_when(a, wall_us, now) == (b - a) * 1_000,
{
}

/// An order that was sent after now, or before the clock began, was placed now.
pub proof fn law_an_order_of_no_known_age_is_new(a: u64, wall_us: u64, now: u64)
    requires
        a >= wall_us || (wall_us - a) * 1_000 > now,
    ensures
        placed_when(a, wall_us, now) == now,
{
}

// ----------------------------------------------------------------- the group

proof fn lemma_joined(
    members: Seq<Order>,
    groups: Seq<Seq<char>>,
    lots: Seq<Seq<char>>,
    n: nat,
    i: int,
)
    requires
        joins(members, groups, lots, n) is Ok,
        0 <= i < n,
    ensures
        groups[i] == groups[0],
        members[i].qty >= 1,
        !taken(lots, i, lots[i]),
    decreases n,
{
    if i < n - 1 {
        lemma_joined(members, groups, lots, (n - 1) as nat, i);
    }
}

proof fn lemma_partial(members: Seq<Order>, n: nat, m: nat)
    requires
        n <= m <= members.len(),
        forall|i: int| 0 <= i < members.len() ==> (#[trigger] members[i]).qty >= 1,
    ensures
        reserved(members, n) <= reserved(members, m),
    decreases m,
{
    if n < m {
        lemma_partial(members, n, (m - 1) as nat);
    }
}

proof fn lemma_joins_below(
    members: Seq<Order>,
    groups: Seq<Seq<char>>,
    lots: Seq<Seq<char>>,
    n: nat,
)
    requires
        n <= members.len(),
        groups.len() == members.len(),
        lots.len() == members.len(),
        forall|i: int| 0 <= i < members.len() ==> #[trigger] groups[i] == groups[0],
        forall|i: int| 0 <= i < members.len() ==> (#[trigger] members[i]).qty >= 1,
        forall|i: int, j: int|
            0 <= i < j < members.len() ==> #[trigger] lots[i] != #[trigger] lots[j],
        reserved(members, members.len()) <= i64::MAX,
    ensures
        joins(members, groups, lots, n) is Ok,
    decreases n,
{
    if n > 0 {
        lemma_joins_below(members, groups, lots, (n - 1) as nat);
        lemma_partial(members, n, members.len());
        assert(groups[n - 1] == groups[0]);
        assert(members[n - 1].qty >= 1);
        assert(!taken(lots, n - 1, lots[n - 1])) by {
            if taken(lots, n - 1, lots[n - 1]) {
                let j = choose|j: int| 0 <= j < n - 1 && #[trigger] lots[j] == lots[n - 1];
                assert(lots[j] != lots[n - 1]);
            }
        }
    }
}

/// Orders rest as one exactly where they trade on the same terms, have a quantity
/// each, belong to different lots, and do not cross, unless there is only one.
pub proof fn law_orders_rest_as_one_on_the_same_terms(members: Seq<Order>)
    requires
        members.len() > 0,
        reserved(members, members.len()) <= i64::MAX,
    ensures
        aggregated(members) is Ok <==> {
            &&& forall|i: int|
                0 <= i < members.len() ==> group_terms(#[trigger] members[i]) == group_terms(
                    members[0],
                ) && members[i].qty >= 1
            &&& forall|i: int, j: int|
                0 <= i < j < members.len() ==> lot_digest(
                    (#[trigger] members[i]).rel_id@,
                    members[i].closes_ts,
                ) != lot_digest((#[trigger] members[j]).rel_id@, members[j].closes_ts)
            &&& members.len() > 1 ==> members[0].cross is None
        },
{
    let (gs, ls) = (group_keys_of(members), lot_keys_of(members));
    if aggregated(members) is Ok {
        assert forall|i: int| 0 <= i < members.len() implies group_terms(#[trigger] members[i])
            == group_terms(members[0]) && members[i].qty >= 1 by {
            lemma_joined(members, gs, ls, members.len(), i);
            assert(gs[i] == gs[0]);
        }
        assert forall|i: int, j: int| 0 <= i < j < members.len() implies lot_digest(
            (#[trigger] members[i]).rel_id@,
            members[i].closes_ts,
        ) != lot_digest((#[trigger] members[j]).rel_id@, members[j].closes_ts) by {
            lemma_joined(members, gs, ls, members.len(), j);
            if ls[i] == ls[j] {
                assert(taken(ls, j, ls[j]));
            }
        }
    }
    if (forall|i: int|
        0 <= i < members.len() ==> group_terms(#[trigger] members[i]) == group_terms(members[0])
            && members[i].qty >= 1) && (forall|i: int, j: int|
        0 <= i < j < members.len() ==> lot_digest(
            (#[trigger] members[i]).rel_id@,
            members[i].closes_ts,
        ) != lot_digest((#[trigger] members[j]).rel_id@, members[j].closes_ts)) && (members.len()
        > 1 ==> members[0].cross is None) {
        assert forall|i: int| 0 <= i < members.len() implies #[trigger] gs[i] == gs[0] by {
            assert(group_terms(members[i]) == group_terms(members[0]));
        }
        assert forall|i: int, j: int| 0 <= i < j < members.len() implies #[trigger] ls[i]
            != #[trigger] ls[j] by {
            assert(lot_digest(members[i].rel_id@, members[i].closes_ts) != lot_digest(
                members[j].rel_id@,
                members[j].closes_ts,
            ));
        }
        lemma_joins_below(members, gs, ls, members.len());
    }
}

/// Fills are shared out among exactly the lots that they reach, each of them once
/// and the oldest first.
pub proof fn law_fills_go_to_the_lots_they_reach(
    members: Seq<Order>,
    from: int,
    to: int,
    n: nat,
)
    ensures
        ({
            let at = sharers(members, from, to, n);
            &&& forall|k: int| 0 <= k < at.len() ==> 0 <= #[trigger] at[k] < n
            &&& forall|k: int, l: int|
                0 <= k < l < at.len() ==> #[trigger] at[k] < #[trigger] at[l]
            &&& forall|i: int|
                0 <= i < n ==> (at.contains(i) <==> #[trigger] share(members, i, from, to) > 0)
        }),
    decreases n,
{
    if n > 0 {
        law_fills_go_to_the_lots_they_reach(members, from, to, (n - 1) as nat);
        let before = sharers(members, from, to, (n - 1) as nat);
        let at = sharers(members, from, to, n);
        assert forall|i: int| 0 <= i < n implies (at.contains(i) <==> #[trigger] share(
            members,
            i,
            from,
            to,
        ) > 0) by {
            if i < n - 1 {
                if before.contains(i) {
                    let k = choose|k: int| 0 <= k < before.len() && before[k] == i;
                    assert(at[k] == i);
                }
                if at.contains(i) {
                    let k = choose|k: int| 0 <= k < at.len() && at[k] == i;
                    assert(before[k] == i);
                }
            } else {
                if share(members, i, from, to) > 0 {
                    assert(at[at.len() - 1] == i);
                }
                if at.contains(i) {
                    let k = choose|k: int| 0 <= k < at.len() && at[k] == i;
                    if share(members, i, from, to) <= 0 {
                        assert(before[k] == i);
                    }
                }
            }
        }
    }
}

// ------------------------------------------------------------ while it rests

proof fn lemma_first_stale(
    fees: FeeSchedule,
    orders: Seq<Order>,
    view: EngineView,
    from: int,
)
    requires
        0 <= from,
    ensures
        match first_stale(fees, orders, view, from) {
            None => forall|i: int|
                from <= i < orders.len() ==> pay_refusal(fees, #[trigger] orders[i], view) is None,
            Some((at, why)) => from <= at < orders.len() && pay_refusal(fees, orders[at], view)
                == Some(why),
        },
    decreases orders.len() - from,
{
    if from < orders.len() && pay_refusal(fees, orders[from], view) is None {
        lemma_first_stale(fees, orders, view, from + 1);
    }
}

/// An order that rests stays exactly where its count can be read and is nothing,
/// nobody has asked for it to come off, it does not cross, there is a view of the
/// book, and by that view the order and every one of its lots still pay. It is
/// cancelled once anything of it has filled, it is to rest with others, or it
/// crosses.
pub proof fn law_an_order_stays_while_all_its_lots_pay(
    fees: FeeSchedule,
    a: Active,
    filled: Option<i64>,
    view: Option<&EngineView>,
)
    requires
        a.wf(),
    ensures
        rest_plan(fees, a, filled, view) is Keep <==> {
            &&& filled == Some(0i64)
            &&& !a.regroup && a.order.cross is None
            &&& view matches Some(v) && pay_refusal(fees, a.order, *v) is None && (forall|i: int|
                0 <= i < a.lots().len() ==> pay_refusal(fees, #[trigger] a.lots()[i], *v) is None)
        },
        rest_plan(fees, a, filled, view) is Cancel <==> (filled matches Some(n) && 0 <= n
            <= a.order.qty && (n > 0 || a.regroup || a.order.cross is Some)),
        rest_plan(fees, a, filled, view) is Unreadable <==> !(filled matches Some(n) && 0 <= n
            <= a.order.qty),
{
    if let Some(v) = view {
        let all = a.lots().push(a.order);
        lemma_first_stale(fees, all, *v, 0);
        assert(all[a.lots().len() as int] == a.order);
        assert forall|i: int| 0 <= i < a.lots().len() implies all[i] == #[trigger] a.lots()[i] by {
        }
    }
}

// ----------------------------------------------------------------- its hedge

/// In its first ten tries a hedge goes out at a price that suits every lot that it
/// closes: no less than each asks where it sells, and no more than each pays where
/// it buys. After that it goes out at such a price, or at one that trades.
pub proof fn law_a_hedge_suits_its_lots_for_ten_tries(
    fees: FeeSchedule,
    a: Active,
    attempts: u32,
    view: EngineView,
    p: Px,
    i: int,
)
    requires
        a.wf(),
        a.filled is Some,
        hedge_plan(fees, a, attempts, view) == Ok::<Px, Result<HedgeRefusal, CrossRefusal>>(p),
        attempts <= 10 || !(cross_price(a.order, view) == Ok::<Px, CrossRefusal>(p)),
        0 <= i < a.lots().len(),
        share(a.lots(), i, a.hedged as int, a.filled->0 as int) > 0,
    ensures
        ({
            let part = part_of(a.lots(), i, a.hedged as int, a.filled->0 as int);
            let sells = (a.order.direction == Direction::Standard) == (a.order.shape
                == Shape::RestPmUs);
            hedge_price(fees, part, part.qty, view) matches Ok(own) && (if sells {
                p >= own
            } else {
                p <= own
            })
        }),
{
    let owed = (a.filled->0 - a.hedged) as i64;
    let sells = (a.order.direction == Direction::Standard) == (a.order.shape == Shape::RestPmUs);
    law_a_group_hedge_suits_every_lot(fees, a.lots(), a.hedged, owed, sells, view, p, i);
}

// --------------------------------------------------------------- its booking

/// The prices at which a lot is booked are no worse than the limits of its two
/// orders: no lower where its basket is left by a sale, and no higher where it is
/// left by a purchase. They are the venues' own prices where the two keep within
/// half a dollar of each other, and else the limits.
pub proof fn law_a_lot_is_booked_no_worse_than_its_limits(
    o: Order,
    rest: Seq<char>,
    close: Seq<char>,
    rest_fill: Option<OrderFill>,
    close_fill: Option<OrderFill>,
    sent: (int, int),
    lim: (int, int),
)
    requires
        fraction_of(rest) == Some(sent),
        fraction_of(close) == Some(lim),
    ensures
        ({
            let (r, c) = lot_prices(o, rest, close, rest_fill, close_fill);
            let first_sells = (o.direction == Direction::Standard) == (o.shape
                == Shape::RestKalshi);
            let own_r = booked_at(rest_fill, rest, first_sells);
            let own_c = booked_at(close_fill, close, !first_sells);
            let (x, y) = (fraction_of(own_r)->0, fraction_of(own_c)->0);
            &&& fraction_of(own_r) is Some && fraction_of(own_c) is Some
            &&& if -(x.1 * y.1) < 2 * (x.0 * y.1 - y.0 * x.1) < x.1 * y.1 {
                r == own_r && c == own_c
            } else {
                r == rest && c == close
            }
            &&& fraction_of(r) matches Some(x) && (if first_sells {
                no_lower(x, sent)
            } else {
                no_lower(sent, x)
            })
            &&& fraction_of(c) matches Some(y) && (if first_sells {
                no_lower(lim, y)
            } else {
                no_lower(y, lim)
            })
        }),
{
    crate::closing::lemma_read_is_proper(rest);
    crate::closing::lemma_read_is_proper(close);
    let first_sells = (o.direction == Direction::Standard) == (o.shape == Shape::RestKalshi);
    lemma_booked(rest_fill, rest, first_sells, sent);
    lemma_booked(close_fill, close, !first_sells, lim);
    lemma_booked(None, rest, first_sells, sent);
    lemma_booked(None, close, !first_sells, lim);
    let own_r = booked_at(rest_fill, rest, first_sells);
    let own_c = booked_at(close_fill, close, !first_sells);
    crate::closing::lemma_read_is_proper(own_r);
    crate::closing::lemma_read_is_proper(own_c);
    let (x, y) = (fraction_of(own_r)->0, fraction_of(own_c)->0);
    match o.shape {
        Shape::RestKalshi => {
            law_plausible_prices_are_close_together(o.direction, own_r, own_c, x, y);
        },
        Shape::RestPmUs => {
            law_plausible_prices_are_close_together(o.direction, own_c, own_r, y, x);
            assert(y.1 * x.1 == x.1 * y.1) by (nonlinear_arith);
        },
    }
}

/// The lots that one hedge closes are booked under numbers of their own, each of
/// them later than the number that the hedge was sent under.
pub proof fn law_each_lot_is_booked_under_its_own_number(
    h: Receipt,
    price: Px,
    owed: int,
    lots: nat,
    last: u64,
    now: u64,
    after: u64,
    i: int,
    j: int,
)
    requires
        made_out(h, price, owed, lots, last, now, after),
        0 <= i < j < lots,
    ensures
        number_of(h, lots, i) matches Some(a) && number_of(h, lots, j) matches Some(b) && h.book_us
            < a < b,
{
    law_ids_in_a_row_are_distinct(h.allocation_us@, h.book_us, at_once(now, lots));
}

// ------------------------------------------------------------- its numbers

/// A number that is handed out is the time where that is new, and else one more
/// than the last.
pub proof fn law_a_number_is_the_time_where_that_is_new(last: u64, now: u64)
    ensures
        now > last ==> next_id(last, now) == now,
        now <= last ==> next_id(last, now) == last + 1,
        next_id(last, now) > last && next_id(last, now) >= now,
{
}

// ------------------------------------------------------------ when it is read

/// A lot that is read back can be used only under its own key, and with an order
/// out only where the lots of that order make it up, on its terms, with the lot
/// itself as the first of them and the oldest first.
pub proof fn law_a_lot_is_read_back_as_it_was_kept(s: State, stem: Seq<char>)
    ensures
        load_refusal(s, stem) == Some(LoadRefusal::Identity) <==> stem != lot_digest(
            s.rel_id@,
            s.opened_bits,
        ),
        s.active is None && stem == lot_digest(s.rel_id@, s.opened_bits) ==> load_refusal(s, stem)
            is None,
        load_refusal(s, stem) is None ==> (s.active matches Some(a) ==> {
            let lots = a.lots();
            &&& a.order.qty == reserved(lots, lots.len())
            &&& group_terms(Order { qty: a.order.qty, ..lots[0] }) == group_terms(a.order)
            &&& lot_digest(lots[0].rel_id@, lots[0].closes_ts) == stem
            &&& forall|i: int, j: int|
                0 <= i && j == i + 1 && j < lots.len() ==> !opened_later(
                    (#[trigger] lots[i]).closes_ts,
                    (#[trigger] lots[j]).closes_ts,
                )
        }),
{
    if load_refusal(s, stem) is None {
        if let Some(a) = s.active {
            let o = aggregated(a.lots())->Ok_0;
            crate::group::law_a_group_reserves_its_lots(a.lots(), o);
        }
    }
}

/// An order that is to come off is marked so, and nothing else of its lot changes.
pub proof fn law_an_order_to_come_off_is_marked(s: State, a: Active)
    requires
        s.active == Some(a),
    ensures
        regrouped(s).active matches Some(b) && b.regroup && b == (Active { regroup: true, ..a }),
        regrouped(s) == (State { active: regrouped(s).active, ..s }),
{
}

/// Only a venue's plain no proves that no order was accepted: an answer that it
/// failed on its own side, one that it did something, or none at all leaves the
/// order in doubt, unless the market is halted.
pub proof fn law_only_a_plain_no_proves_a_refusal(status: Option<u16>, halted: bool)
    ensures
        halted ==> proves_refusal(status, halted),
        !halted && status is None ==> !proves_refusal(status, halted),
        !halted ==> (status matches Some(s) ==> (proves_refusal(status, halted) ==> 400 <= s < 500)),
        !halted ==> (status matches Some(s) ==> (s >= 500 || s < 400 || s == 408 || s == 409
            ==> !proves_refusal(status, halted))),
        forall|s: u16|
            #![trigger proves_refusal(Some(s), false)]
            s == 400 || s == 401 || s == 403 || s == 404 || s == 422 || s == 429 ==> proves_refusal(
                Some(s),
                false,
            ),
{
}

/// A lot stops new exits once a pass over it has failed, for as long as it has an
/// order out; with nothing under way it stops none.
pub proof fn law_a_failed_pass_stops_new_exits(s: State, failed: bool)
    ensures
        s.active is None ==> !stops(s, failed),
        s.active is Some && failed ==> stops(s, failed),
        s.active is Some && !failed ==> (stops(s, failed) <==> s.latched),
{
}

} // verus!
