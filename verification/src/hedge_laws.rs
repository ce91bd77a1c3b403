//! That a hedge pays, and that a basket held the other way round is priced as the
//! mirror image of one held the standard way.
use crate::assoc::lookup;
use crate::board::EngineView;
use crate::close_laws::{against, law_a_priced_close_trades_and_pays, trades};
use crate::closing::{close_price, lemma_read_is_proper};
use crate::decide_laws::{lemma_ceiling_in_range, lemma_floor_in_range};
use crate::decimal::{below, fraction_of};
use crate::fees::FeeSchedule;
use crate::found_laws::{law_a_close_is_found_where_one_pays, law_an_ask_is_found_where_one_pays};
use crate::group::share;
use crate::hedge::{
    cross_price, group_price, hedge_price, held_price, mirror, mirrored, part_of, strictest,
    HedgeRefusal,
};
use crate::ladder::{legal, pennies, rung_at, Rung};
use crate::market_laws::far_quote;
use crate::money::{lemma_nearest, lemma_nearest_exact, qty_ok, Px, ONE};
use crate::order::Order;
use crate::pricing::{dearest_close, least_ask, locked_ct, micro, proper, reaches, PriceRefusal};
use crate::pricing_laws::{law_close_limit_is_the_highest_penny, law_exit_limit_is_the_lowest_penny};
use crate::ratio::{dollars, FARTHEST};
use crate::venue::{Direction, Role, Shape};
use vstd::prelude::*;

verus! {

/// The hedge of a standard exit that rested is its close, and is refused where
/// its close is.
pub proof fn law_a_hedge_of_a_resting_exit_is_its_close(
    fees: FeeSchedule,
    o: Order,
    qty: i64,
    view: EngineView,
)
    requires
        fees.wf(),
        qty_ok(qty),
        o.direction == Direction::Standard,
        o.cross is None,
    ensures
        match close_price(fees, o, qty, view) {
            Ok(p) => hedge_price(fees, o, qty, view) == Ok::<Px, HedgeRefusal>(p),
            Err(e) => hedge_price(fees, o, qty, view) == Err::<Px, HedgeRefusal>(
                HedgeRefusal::Close(e),
            ),
        },
{
    if let Ok(p) = close_price(fees, o, qty, view) {
        law_a_priced_close_trades_and_pays(
            fees,
            o,
            qty,
            view,
            fraction_of(o.k_basis@)->0,
            fraction_of(o.pm_basis@)->0,
            fraction_of(o.limit@)->0,
            p,
        );
        lemma_nearest_exact(p as int / 100, 100);
        assert((p as int / 100) * 100 == p);
    }
}

/// What a hedge locks behind a first leg that crossed at `first`: both legs take.
pub open spec fn taken_with(
    fees: FeeSchedule,
    shape: Shape,
    first: (int, int),
    p: int,
    kb: (int, int),
    pb: (int, int),
    qty: i64,
) -> (int, int) {
    match shape {
        Shape::RestKalshi => locked_ct(
            fees,
            (Role::Taker, Role::Taker),
            first,
            dollars(p),
            kb,
            pb,
            qty,
        ),
        Shape::RestPmUs => locked_ct(
            fees,
            (Role::Taker, Role::Taker),
            dollars(p),
            first,
            kb,
            pb,
            qty,
        ),
    }
}

/// The hedge of a standard exit that crossed trades at once against the book of
/// its own leg, and locks half a cent a contract after both takers' fees. It is
/// priced by the cent.
pub proof fn law_a_hedge_of_a_cross_trades_and_pays(
    fees: FeeSchedule,
    o: Order,
    qty: i64,
    view: EngineView,
    kb: (int, int),
    pb: (int, int),
    first: (int, int),
    p: Px,
)
    requires
        fees.wf(),
        qty_ok(qty),
        o.direction == Direction::Standard,
        o.cross matches Some(c) && fraction_of(c.limit@) == Some(first),
        o.shape == Shape::RestPmUs ==> lookup(view.k_ladder@, o.market@) is None,
        fraction_of(o.k_basis@) == Some(kb),
        fraction_of(o.pm_basis@) == Some(pb),
        hedge_price(fees, o, qty, view) == Ok::<Px, HedgeRefusal>(p),
    ensures
        p > 0,
        p % 10_000 == 0,
        against(o, view) matches Some(t) && fraction_of(t@) matches Some(touch) && trades(
            o.shape,
            p as int,
            touch,
        ),
        reaches(taken_with(fees, o.shape, first, p as int, kb, pb, qty), 5_000),
        forall|q: Px|
            0 < q <= 1_000_000 && q % 10_000 == 0 && #[trigger] crate::close_laws::further(
                o.shape,
                p as int,
                q as int,
            ) ==> !reaches(taken_with(fees, o.shape, first, q as int, kb, pb, qty), 5_000),
{
    lemma_read_is_proper(o.k_basis@);
    lemma_read_is_proper(o.pm_basis@);
    lemma_read_is_proper(o.cross->0.limit@);
    let touch = fraction_of(against(o, view)->0@)->0;
    lemma_read_is_proper(against(o, view)->0@);
    let h = held_price(fees, o, qty, view)->Ok_0;
    let (x, t0, t1) = (h as int, touch.0 * 1_000_000, touch.1);
    assert(micro(touch) == (t0, t1));
    assert(t0 * 1 == t0);
    assert(below((x, 1), (t0, t1)) == (x * t1 < t0 * 1));
    match o.shape {
        Shape::RestKalshi => {
            law_close_limit_is_the_highest_penny(
                fees,
                first,
                kb,
                pb,
                qty,
                Role::Taker,
                Role::Taker,
                5_000,
                h,
            );
        },
        Shape::RestPmUs => {
            law_exit_limit_is_the_lowest_penny(
                fees,
                kb,
                pb,
                first,
                qty,
                Role::Taker,
                Role::Taker,
                5_000,
                h,
            );
        },
    }
    lemma_nearest_exact(x / 100, 100);
    assert((x / 100) * 100 == x);
}

// ------------------------------------------------------------- the other way

/// Whether a rung lies within a dollar, with a step of a dollar at most.
pub open spec fn within_a_dollar(r: Rung) -> bool {
    0 <= r.start <= r.end <= 1_000_000 && 0 < r.step <= 1_000_000
}

/// A ladder within a dollar is mirrored rung by rung, the last one first: where
/// one starts, its image ends at what is left of a dollar, and the other way
/// round, with the same step.
pub proof fn law_a_ladder_is_mirrored_rung_by_rung(ladder: Seq<Rung>, i: int)
    requires
        forall|j: int| 0 <= j < ladder.len() ==> within_a_dollar(#[trigger] ladder[j]),
        0 <= i < ladder.len(),
    ensures
        mirror(ladder).len() == ladder.len(),
        mirror(ladder)[ladder.len() - 1 - i].start == 1_000_000 - ladder[i].end,
        mirror(ladder)[ladder.len() - 1 - i].end == 1_000_000 - ladder[i].start,
        mirror(ladder)[ladder.len() - 1 - i].step == ladder[i].step,
{
    lemma_mirrored(ladder);
    lemma_mirrored_at(ladder, i);
}

proof fn lemma_mirrored(ladder: Seq<Rung>)
    requires
        forall|j: int| 0 <= j < ladder.len() ==> within_a_dollar(#[trigger] ladder[j]),
    ensures
        mirror(ladder).len() == ladder.len(),
        ladder.len() > 0 ==> mirror(ladder) == mirror(ladder.drop_first()).push(
            mirrored(ladder[0]),
        ),
    decreases ladder.len(),
{
    if ladder.len() > 0 {
        assert(within_a_dollar(ladder[0]));
        assert(mirrored(ladder[0]).wf());
        let rest = ladder.drop_first();
        assert forall|j: int| 0 <= j < rest.len() implies within_a_dollar(#[trigger] rest[j]) by {
            assert(within_a_dollar(ladder[j + 1]));
        }
        lemma_mirrored(rest);
    }
}

proof fn lemma_mirrored_at(ladder: Seq<Rung>, i: int)
    requires
        forall|j: int| 0 <= j < ladder.len() ==> within_a_dollar(#[trigger] ladder[j]),
        0 <= i < ladder.len(),
    ensures
        mirror(ladder).len() == ladder.len(),
        mirror(ladder)[ladder.len() - 1 - i] == mirrored(ladder[i]),
    decreases ladder.len(),
{
    lemma_mirrored(ladder);
    if i > 0 {
        let rest = ladder.drop_first();
        assert forall|j: int| 0 <= j < rest.len() implies within_a_dollar(#[trigger] rest[j]) by {
            assert(within_a_dollar(ladder[j + 1]));
        }
        lemma_mirrored_at(rest, i - 1);
        assert(rest[i - 1] == ladder[i]);
    }
}

/// A basket held the other way round is hedged at the mirror image: if the price
/// of its first leg, and the touch that its hedge trades against, are what the
/// same prices of a standard one leave of a dollar, then it is hedged at what the
/// standard hedge leaves of a dollar, and refused where that is. A standard hedge
/// trades against the PM-US ask or the Kalshi bid, and an inverse one against the
/// PM-US bid or the Kalshi ask.
pub proof fn law_an_inverse_hedge_is_the_mirror_of_a_standard_one(
    fees: FeeSchedule,
    a: Order,
    b: Order,
    qty: i64,
    va: EngineView,
    vb: EngineView,
    first: (int, int),
    touch: (int, int),
)
    requires
        fees.wf(),
        qty_ok(qty),
        a.direction == Direction::Standard,
        b.direction == Direction::Inverse,
        a.shape == b.shape,
        a.cross is Some == b.cross is Some,
        fraction_of(a.k_basis@) == fraction_of(b.k_basis@),
        fraction_of(a.pm_basis@) == fraction_of(b.pm_basis@),
        fraction_of(b.limit@) is Some,
        fraction_of((match a.cross {
            Some(c) => c.limit,
            None => a.limit,
        })@) == Some(first),
        fraction_of((match b.cross {
            Some(c) => c.limit,
            None => b.limit,
        })@) == Some((first.1 - first.0, first.1)),
        match a.shape {
            Shape::RestKalshi => {
                &&& lookup(va.pm_ask@, a.pm_market@) matches Some(t) && fraction_of(t@) == Some(
                    touch,
                )
                &&& lookup(vb.pm_bid@, b.pm_market@) matches Some(t) && fraction_of(t@) == Some(
                    (touch.1 - touch.0, touch.1),
                )
            },
            Shape::RestPmUs => {
                &&& lookup(va.k_bid@, a.market@) matches Some(t) && fraction_of(t@) == Some(touch)
                &&& lookup(vb.k_ask@, b.market@) matches Some(t) && fraction_of(t@) == Some(
                    (touch.1 - touch.0, touch.1),
                )
            },
        },
        match (lookup(va.k_ladder@, a.market@), lookup(vb.k_ladder@, b.market@)) {
            (None, None) => true,
            (Some(l), Some(m)) => mirror(legal(m@)) == legal(l@),
            _ => false,
        },
    ensures
        match (hedge_price(fees, a, qty, va), hedge_price(fees, b, qty, vb)) {
            (Ok(p), Ok(q)) => p + q == 1_000_000,
            (Err(e), Err(f)) => e == f,
            _ => false,
        },
{
    lemma_read_is_proper(a.k_basis@);
    lemma_read_is_proper(a.pm_basis@);
    lemma_read_is_proper(a.limit@);
    lemma_read_is_proper(a.cross->0.limit@);
    assert(pennies()[0] == Rung { start: 0, end: ONE, step: 10_000 });
    assert(pennies().drop_first() =~= Seq::<Rung>::empty());
    assert(mirror(Seq::<Rung>::empty()) =~= Seq::<Rung>::empty());
    assert(mirror(pennies()) =~= pennies());
    assert(held_price(fees, a, qty, va) == held_price(fees, b, qty, vb));
    if let Ok(h) = held_price(fees, a, qty, va) {
        let (kb, pb) = (fraction_of(a.k_basis@)->0, fraction_of(a.pm_basis@)->0);
        lemma_found_in_range(fees, a, qty, va, first, kb, pb, h);
        lemma_nearest(h as int, 100);
    }
}

/// A price that was found for a hedge is within the range that is told apart.
proof fn lemma_found_in_range(
    fees: FeeSchedule,
    o: Order,
    qty: i64,
    view: EngineView,
    first: (int, int),
    kb: (int, int),
    pb: (int, int),
    h: Px,
)
    requires
        fees.wf(),
        qty_ok(qty),
        o.direction == Direction::Standard,
        proper(first),
        proper(kb),
        proper(pb),
        fraction_of(o.sent_at()@) == Some(first),
        fraction_of(o.k_basis@) == Some(kb),
        fraction_of(o.pm_basis@) == Some(pb),
        held_price(fees, o, qty, view) == Ok::<Px, HedgeRefusal>(h),
    ensures
        -FARTHEST <= h <= FARTHEST,
{
    let ladder = match lookup(view.k_ladder@, o.market@) {
        Some(l) => legal(l@),
        None => pennies(),
    };
    crate::pricing_laws::lemma_pennies(0, 1);
    lemma_ceiling_in_range(fees, first, kb, pb, qty, Role::Taker, Role::Taker, 5_000);
    lemma_ceiling_in_range(fees, first, kb, pb, qty, Role::Maker, Role::Taker, 5_000);
    lemma_floor_in_range(fees, ladder, kb, pb, first, qty, Role::Taker, Role::Taker, 5_000);
    lemma_floor_in_range(fees, pennies(), kb, pb, first, qty, Role::Taker, Role::Maker, 5_000);
}

/// The limit of a group's hedge gives no more away than one of its lots asks: it
/// is the limit of a lot that it closes.
pub proof fn law_a_group_hedge_is_that_of_a_lot(
    fees: FeeSchedule,
    members: Seq<Order>,
    hedged: i64,
    qty: i64,
    selling: bool,
    view: EngineView,
    p: Px,
) -> (i: int)
    requires
        group_price(fees, members, hedged, qty, selling, view) == Ok::<Px, HedgeRefusal>(p),
    ensures
        0 <= i < members.len(),
        share(members, i, hedged as int, hedged + qty) > 0,
        ({
            let part = part_of(members, i, hedged as int, hedged + qty);
            hedge_price(fees, part, part.qty, view) == Ok::<Px, HedgeRefusal>(p)
        }),
{
    lemma_strictest_is_one(
        fees,
        members,
        hedged as int,
        hedged + qty,
        selling,
        view,
        members.len(),
        p,
    )
}

proof fn lemma_strictest_is_one(
    fees: FeeSchedule,
    members: Seq<Order>,
    from: int,
    to: int,
    selling: bool,
    view: EngineView,
    n: nat,
    p: Px,
) -> (i: int)
    requires
        strictest(fees, members, from, to, selling, view, n) == Ok::<Option<Px>, HedgeRefusal>(
            Some(p),
        ),
    ensures
        0 <= i < n,
        share(members, i, from, to) > 0,
        ({
            let part = part_of(members, i, from, to);
            hedge_price(fees, part, part.qty, view) == Ok::<Px, HedgeRefusal>(p)
        }),
    decreases n,
{
    let before = strictest(fees, members, from, to, selling, view, (n - 1) as nat);
    if before == Ok::<Option<Px>, HedgeRefusal>(Some(p)) {
        lemma_strictest_is_one(fees, members, from, to, selling, view, (n - 1) as nat, p)
    } else {
        n - 1
    }
}

/// A hedge can be crossed out wherever the touch of the leg that did not rest can
/// be read, on Kalshi stands on a rung of its market's ladder where one is known,
/// and leaves a price between nothing and a dollar one step through it.
pub proof fn law_a_hedge_is_crossed_out_wherever_it_can_trade(
    o: Order,
    view: EngineView,
    touch: (int, int),
    step: int,
)
    requires
        far_quote(o, view).0 matches Some(t) && fraction_of(t@) == Some(touch),
        match (o.shape, lookup(view.k_ladder@, o.market@)) {
            (Shape::RestPmUs, Some(l)) => rung_at(
                legal(l@),
                touch.0 * 1_000_000,
                touch.1,
            ) matches Some(r) && r.step == step,
            _ => step == 10_000,
        },
    ensures
        cross_price(o, view) is Ok <==> (if far_quote(o, view).1 {
            0 < touch.0 * 1_000_000 - step * touch.1 && touch.0 * 1_000_000 - step * touch.1
                < 1_000_000 * touch.1
        } else {
            0 < touch.0 * 1_000_000 + step * touch.1 && touch.0 * 1_000_000 + step * touch.1
                < 1_000_000 * touch.1
        }),
{
    lemma_read_is_proper(far_quote(o, view).0->0@);
    assert(crate::ratio::scaled(touch, ONE as int) == (touch.0 * 1_000_000, touch.1));
    let (t1, m) = (touch.1, 1_000_000int);
    assert(t1 * m == m * t1);
}

/// The hedge of a cross that sells on Kalshi goes by its own market's ladder: it is
/// the least ask of that ladder that locks half a cent a contract after both
/// takers' fees, to half a ten-thousandth of a dollar, and no more than the bid.
pub proof fn law_a_hedge_of_a_cross_goes_by_its_markets_ladder(
    fees: FeeSchedule,
    o: Order,
    qty: i64,
    view: EngineView,
    ladder: Vec<Rung>,
    kb: (int, int),
    pb: (int, int),
    first: (int, int),
    p: Px,
) -> (found: Px)
    requires
        fees.wf(),
        qty_ok(qty),
        o.direction == Direction::Standard,
        o.shape == Shape::RestPmUs,
        o.cross matches Some(c) && fraction_of(c.limit@) == Some(first),
        lookup(view.k_ladder@, o.market@) == Some(ladder),
        fraction_of(o.k_basis@) == Some(kb),
        fraction_of(o.pm_basis@) == Some(pb),
        hedge_price(fees, o, qty, view) == Ok::<Px, HedgeRefusal>(p),
    ensures
        least_ask(
            fees,
            legal(ladder@),
            kb,
            pb,
            first,
            qty,
            Role::Taker,
            Role::Taker,
            5_000,
        ) == Ok::<Px, PriceRefusal>(found),
        -50 <= p - found <= 50,
        against(o, view) matches Some(t) && fraction_of(t@) matches Some(touch) && trades(
            o.shape,
            found as int,
            touch,
        ),
{
    lemma_read_is_proper(o.k_basis@);
    lemma_read_is_proper(o.pm_basis@);
    lemma_read_is_proper(o.cross->0.limit@);
    let touch = fraction_of(against(o, view)->0@)->0;
    lemma_read_is_proper(against(o, view)->0@);
    let h = held_price(fees, o, qty, view)->Ok_0;
    let (x, t0, t1) = (h as int, touch.0 * 1_000_000, touch.1);
    assert(micro(touch) == (t0, t1));
    assert(t0 * 1 == t0);
    lemma_found_in_range(fees, o, qty, view, first, kb, pb, h);
    lemma_nearest(x, 100);
    h
}

/// The hedge of a cross is priced wherever one pays: if any whole cent trades at once
/// against the book of its own leg and locks half a cent a contract after both
/// takers' fees, there is a price for it. It is priced by the cent.
pub proof fn law_a_hedge_of_a_cross_that_pays_is_priced(
    fees: FeeSchedule,
    o: Order,
    qty: i64,
    view: EngineView,
    kb: (int, int),
    pb: (int, int),
    first: (int, int),
    touch: (int, int),
    p: Px,
)
    requires
        fees.wf(),
        qty_ok(qty),
        o.direction == Direction::Standard,
        o.cross matches Some(c) && fraction_of(c.limit@) == Some(first),
        o.shape == Shape::RestPmUs ==> lookup(view.k_ladder@, o.market@) is None,
        fraction_of(o.k_basis@) == Some(kb),
        fraction_of(o.pm_basis@) == Some(pb),
        against(o, view) matches Some(t) && fraction_of(t@) == Some(touch),
        0 < p < 1_000_000,
        p % 10_000 == 0,
        trades(o.shape, p as int, touch),
        reaches(taken_with(fees, o.shape, first, p as int, kb, pb, qty), 5_000),
    ensures
        hedge_price(fees, o, qty, view) is Ok,
{
    lemma_read_is_proper(o.k_basis@);
    lemma_read_is_proper(o.pm_basis@);
    lemma_read_is_proper(o.cross->0.limit@);
    lemma_read_is_proper(against(o, view)->0@);
    let (x, t0, t1) = (p as int, touch.0 * 1_000_000, touch.1);
    assert(micro(touch) == (t0, t1));
    let (taker, floor) = (Role::Taker, 5_000i64);
    match o.shape {
        Shape::RestKalshi => {
            law_a_close_is_found_where_one_pays(fees, first, kb, pb, qty, taker, taker, floor, p);
            let c = dearest_close(fees, first, kb, pb, qty, taker, taker, floor)->Ok_0;
            law_close_limit_is_the_highest_penny(
                fees,
                first,
                kb,
                pb,
                qty,
                taker,
                taker,
                floor,
                c,
            );
            let y = c as int;
            assert(x <= y);
            assert(x * t1 <= y * t1) by (nonlinear_arith)
                requires
                    x <= y,
                    t1 > 0,
            ;
        },
        Shape::RestPmUs => {
            law_an_ask_is_found_where_one_pays(fees, kb, pb, first, qty, taker, taker, floor, p);
            let c = least_ask(fees, pennies(), kb, pb, first, qty, taker, taker, floor)->Ok_0;
            law_exit_limit_is_the_lowest_penny(fees, kb, pb, first, qty, taker, taker, floor, c);
            let y = c as int;
            assert(y <= x);
            assert(y * t1 <= x * t1) by (nonlinear_arith)
                requires
                    y <= x,
                    t1 > 0,
            ;
        },
    }
}

} // verus!
