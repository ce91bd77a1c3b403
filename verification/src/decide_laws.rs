//! What an exit that is decided promises of the order that it writes.
use crate::assoc::lookup;
use crate::board::EngineView;
use crate::closing::{lemma_descend_falls, lemma_read_is_proper, pay_refusal, PayRefusal};
use crate::decide::{
    clip, decision, offer_rest_kalshi, offer_rest_pmus, price_in, priced, sized, writes, yielded_at,
    DecideRefusal, Exit, Lot, Offer, Plan, Quote, ShapeRefusal,
};
use crate::decimal::{fraction_of, total};
use crate::fees::FeeSchedule;
use crate::ladder::{ladder_ok, law_tick_ceil_is_tight, legal, step_at, tick_ceil, Rung};
use crate::lot::depth_key;
use crate::money::{
    law_four_decimals_are_read_back, law_six_decimals_are_read_back, lemma_nearest,
    lemma_nearest_exact, nearest, qty_ok, unit, wire, Px, CENT, PX_MAX,
};
use crate::order::Order;
use crate::pricing::{
    allowed, climb, dearest_close, free_bound, least_ask, lemma_free_bound, locked_ct, nets, proper,
    reaches, resting_ask, resting_bid, six, wanted, PriceRefusal, EXIT_FLOOR, MAX_TICK_WALK,
};
use crate::pricing_laws::{
    law_a_resting_ask_is_a_maker, law_a_resting_bid_is_a_maker,
    law_close_limit_is_the_highest_penny, lemma_proper,
};
use crate::ratio::{dollars, less_by, shown, FARTHEST};
use crate::venue::{Direction, Role, Shape};
use vstd::prelude::*;

verus! {

/// Whether a text spells a number of millionths to the nearest one.
pub open spec fn spells_nearest(text: Seq<char>, x: (int, int)) -> bool {
    fraction_of(text) matches Some(t) && t.1 == 1_000_000 && 2 * (t.0 * x.1 - x.0) <= x.1 && 2 * (
    x.0 - t.0 * x.1) <= x.1
}

proof fn lemma_climb_in_range(
    fees: FeeSchedule,
    ladder: Seq<Rung>,
    k_role: Role,
    qty: i64,
    want: (int, int),
    k_basis: Px,
    pm_basis: Px,
    l: Px,
    n: nat,
)
    requires
        ladder_ok(ladder),
        -PX_MAX <= l <= PX_MAX,
    ensures
        climb(fees, ladder, k_role, qty, want, k_basis, pm_basis, l, n) matches Ok(p) ==> -PX_MAX
            <= p <= PX_MAX,
    decreases n,
{
    if n > 0 && !nets(fees, k_role, qty, want, l as int) {
        if let Some(step) = step_at(ladder, l) {
            law_tick_ceil_is_tight(ladder, l + step, 1);
            if let Some(next) = tick_ceil(ladder, l + step, 1) {
                lemma_climb_in_range(
                    fees,
                    ladder,
                    k_role,
                    qty,
                    want,
                    k_basis,
                    pm_basis,
                    next,
                    (n - 1) as nat,
                );
            }
        }
    }
}

/// A floor that was found is within the range of prices.
pub proof fn lemma_floor_in_range(
    fees: FeeSchedule,
    ladder: Seq<Rung>,
    k_basis: (int, int),
    pm_basis: (int, int),
    pm_close: (int, int),
    qty: i64,
    k_role: Role,
    pm_role: Role,
    floor: Px,
)
    requires
        ladder_ok(ladder),
        qty_ok(qty),
        proper(k_basis),
        proper(pm_basis),
        proper(pm_close),
    ensures
        least_ask(fees, ladder, k_basis, pm_basis, pm_close, qty, k_role, pm_role, floor)
            matches Ok(l) ==> -PX_MAX <= l <= PX_MAX,
{
    let want = wanted(fees, k_basis, pm_basis, pm_close, qty, pm_role, floor);
    lemma_proper(fees, pm_role, pm_close, k_basis, pm_basis, qty);
    let u = unit(qty);
    let (s1, c1) = (
        crate::pricing::sunk(k_basis, pm_basis, qty).1,
        crate::pricing::cost(fees, pm_role, pm_close, qty).1,
    );
    assert(s1 * c1 > 0) by (nonlinear_arith)
        requires
            s1 > 0,
            c1 > 0,
    ;
    let w = want.1;
    assert(w > 0);
    assert(w * u > 0) by (nonlinear_arith)
        requires
            w > 0,
            u > 0,
    ;
    law_tick_ceil_is_tight(ladder, 0, 1);
    if let Some(bottom) = tick_ceil(ladder, 0, 1) {
        if let Some(step) = step_at(ladder, bottom) {
            law_tick_ceil_is_tight(ladder, bottom + step, 1);
        }
    }
    law_tick_ceil_is_tight(ladder, want.0, w * u);
    if let Some(l) = tick_ceil(ladder, want.0, w * u) {
        lemma_climb_in_range(
            fees,
            ladder,
            k_role,
            qty,
            want,
            six(k_basis),
            six(pm_basis),
            l,
            MAX_TICK_WALK as nat,
        );
    }
}

/// What a lock is written as reads back to the nearest millionth.
proof fn lemma_lock_text(x: (int, int), text: Seq<char>, m: int)
    requires
        proper(x),
        text == crate::money::six_decimals(shown(x)),
        fraction_of(text) == Some((m, 1_000_000int)),
        -FARTHEST < m < FARTHEST,
    ensures
        spells_nearest(text, x),
{
    law_six_decimals_are_read_back(shown(x));
    lemma_nearest(x.0, x.1);
}

/// A lock has a denominator.
proof fn lemma_lock_is_proper(
    fees: FeeSchedule,
    roles: (Role, Role),
    k: (int, int),
    pm: (int, int),
    kb: (int, int),
    pb: (int, int),
    qty: i64,
)
    requires
        qty_ok(qty),
        proper(k),
        proper(pm),
        proper(kb),
        proper(pb),
    ensures
        proper(locked_ct(fees, roles, k, pm, kb, pb, qty)),
{
    lemma_proper(fees, roles.0, k, kb, pb, qty);
    lemma_proper(fees, roles.1, pm, kb, pb, qty);
    let u = unit(qty);
    let (a, b, c) = (
        crate::pricing::proceeds(fees, roles.0, k, qty).1,
        crate::pricing::sunk(kb, pb, qty).1,
        crate::pricing::cost(fees, roles.1, pm, qty).1,
    );
    let d = b * c;
    assert(d > 0) by (nonlinear_arith)
        requires
            d == b * c,
            b > 0,
            c > 0,
    ;
    let e = a * d;
    assert(e > 0) by (nonlinear_arith)
        requires
            e == a * d,
            a > 0,
            d > 0,
    ;
    assert(e * u > 0) by (nonlinear_arith)
        requires
            e > 0,
            u > 0,
    ;
}

/// A price that is rounded for the wire and written, read back.
proof fn lemma_limit_text(p: Px, text: Seq<char>)
    requires
        -FARTHEST <= p <= FARTHEST,
        text == crate::money::four_decimals(nearest((wire(p) as i64) as int, 100)),
    ensures
        fraction_of(text) == Some((wire(p) / 100, 10_000int)),
        wire(p) as i64 == wire(p),
        100 * (wire(p) / 100) == wire(p),
        -50 <= wire(p) - p <= 50,
{
    lemma_nearest(p as int, 100);
    let n = nearest(p as int, 100);
    lemma_nearest_exact(n, 100);
    law_four_decimals_are_read_back(n);
}

/// What a resting Kalshi ask locks, of its limit as it is written.
proof fn lemma_offer_kalshi(
    fees: FeeSchedule,
    ladder: Seq<Rung>,
    kb: (int, int),
    pb: (int, int),
    ask: (int, int),
    qty: i64,
    bid: Option<(int, int)>,
    k_ask: Option<(int, int)>,
    of: Offer,
    text: Seq<char>,
)
    requires
        ladder_ok(ladder),
        qty_ok(qty),
        proper(kb),
        proper(pb),
        proper(ask),
        bid matches Some(b) ==> proper(b),
        k_ask matches Some(a) ==> proper(a),
        offer_rest_kalshi(fees, ladder, kb, pb, ask, qty, bid, k_ask) == Ok::<Offer, ShapeRefusal>(
            of,
        ),
        text == crate::money::four_decimals(nearest(of.limit as int, 100)),
    ensures
        fraction_of(text) matches Some(t) && t.1 == 10_000 && of.limit == 100 * t.0 && of.lock
            == locked_ct(
            fees,
            (Role::Maker, Role::Taker),
            dollars(100 * t.0),
            total(ask, dollars(10_000)),
            kb,
            pb,
            qty,
        ),
        proper(of.lock),
        of.qty == qty,
{
    let close = total(ask, dollars(CENT as int));
    lemma_floor_in_range(fees, ladder, kb, pb, close, qty, Role::Maker, Role::Taker, EXIT_FLOOR);
    let floor = least_ask(
        fees,
        ladder,
        kb,
        pb,
        close,
        qty,
        Role::Maker,
        Role::Taker,
        EXIT_FLOOR,
    )->Ok_0;
    let q = resting_ask(ladder, floor, bid, k_ask)->Ok_0;
    law_a_resting_ask_is_a_maker(ladder, floor, bid, k_ask, q);
    lemma_limit_text(q, text);
    lemma_lock_is_proper(
        fees,
        (Role::Maker, Role::Taker),
        dollars(wire(q)),
        close,
        kb,
        pb,
        qty,
    );
}

/// A ceiling that was found is within the range that is told apart.
pub proof fn lemma_ceiling_in_range(
    fees: FeeSchedule,
    take: (int, int),
    kb: (int, int),
    pb: (int, int),
    qty: i64,
    k_role: Role,
    pm_role: Role,
    floor: Px,
)
    requires
        fees.wf(),
        qty_ok(qty),
        proper(take),
        proper(kb),
        proper(pb),
    ensures
        dearest_close(fees, take, kb, pb, qty, k_role, pm_role, floor) matches Ok(c) ==> 0 < c
            <= FARTHEST,
{
    if let Ok(c) = dearest_close(fees, take, kb, pb, qty, k_role, pm_role, floor) {
        law_close_limit_is_the_highest_penny(fees, take, kb, pb, qty, k_role, pm_role, floor, c);
        let cap = allowed(fees, take, kb, pb, qty, k_role, floor);
        lemma_descend_falls(
            fees,
            pm_role,
            qty,
            cap,
            six(take),
            free_bound(cap, qty) as i64,
            MAX_TICK_WALK as nat,
        );
        lemma_proper(fees, k_role, take, kb, pb, qty);
        let (a, b) = (
            crate::pricing::proceeds(fees, k_role, take, qty).1,
            crate::pricing::sunk(kb, pb, qty).1,
        );
        assert(a * (b * 1) > 0) by (nonlinear_arith)
            requires
                a > 0,
                b > 0,
        ;
        lemma_free_bound(cap, qty);
    }
}

/// What a resting PM-US bid locks, of its limit as it is written.
proof fn lemma_offer_pmus(
    fees: FeeSchedule,
    kb: (int, int),
    pb: (int, int),
    ask: (int, int),
    pm_bid: Option<(int, int)>,
    qty: i64,
    bid: (int, int),
    of: Offer,
    text: Seq<char>,
)
    requires
        fees.wf(),
        qty_ok(qty),
        proper(kb),
        proper(pb),
        proper(ask),
        proper(bid),
        pm_bid matches Some(b) ==> proper(b),
        offer_rest_pmus(fees, kb, pb, ask, pm_bid, qty, Some(bid)) == Ok::<Offer, ShapeRefusal>(of),
        text == crate::money::four_decimals(nearest(of.limit as int, 100)),
    ensures
        fraction_of(text) matches Some(t) && t.1 == 10_000 && of.limit == 100 * t.0 && of.lock
            == locked_ct(
            fees,
            (Role::Taker, Role::Maker),
            less_by(bid, dollars(10_000)),
            dollars(100 * t.0),
            kb,
            pb,
            qty,
        ),
        proper(of.lock),
        of.qty == qty,
{
    let take = less_by(bid, dollars(CENT as int));
    lemma_ceiling_in_range(fees, take, kb, pb, qty, Role::Taker, Role::Maker, EXIT_FLOOR);
    let ceiling = dearest_close(
        fees,
        take,
        kb,
        pb,
        qty,
        Role::Taker,
        Role::Maker,
        EXIT_FLOOR,
    )->Ok_0;
    let q = resting_bid(ceiling, pm_bid, Some(ask))->Ok_0;
    law_a_resting_bid_is_a_maker(ceiling, pm_bid, Some(ask), q);
    lemma_limit_text(q, text);
    lemma_lock_is_proper(
        fees,
        (Role::Taker, Role::Maker),
        take,
        dollars(wire(q)),
        kb,
        pb,
        qty,
    );
}

/// What a plan is made of: the offer of its shape, at the quantity that it
/// trades, and the lock of its cross.
proof fn lemma_planned(
    fees: FeeSchedule,
    k_lot: Lot,
    pm_lot: Lot,
    inflight_clear: bool,
    cand: Exit,
    pm_market: Seq<char>,
    quote: Quote,
    view: EngineView,
    claims: Seq<(String, i64)>,
    now: u64,
    take_ok: bool,
    p: Plan,
    ask: (int, int),
    kb: (int, int),
    pb: (int, int),
)
    requires
        decision(
            fees,
            Ok(k_lot),
            Ok(pm_lot),
            inflight_clear,
            cand,
            pm_market,
            quote,
            view,
            claims,
            now,
            take_ok,
        ) == Ok::<Plan, DecideRefusal>(p),
        lookup(view.pm_ask@, pm_market) matches Some(t) && fraction_of(t@) == Some(ask),
        fraction_of(k_lot.cost_per_ct@) == Some(kb),
        fraction_of(pm_lot.cost_per_ct@) == Some(pb),
    ensures
        1 <= p.qty <= 5,
        reaches(p.offer.lock, 20_000),
        p.shape == Shape::RestKalshi ==> offer_rest_kalshi(
            fees,
            legal(quote.ladder@),
            kb,
            pb,
            ask,
            p.qty,
            price_in(quote.yes_bid),
            price_in(quote.yes_ask),
        ) == Ok::<Offer, ShapeRefusal>(p.offer),
        p.shape == Shape::RestPmUs ==> offer_rest_pmus(
            fees,
            kb,
            pb,
            ask,
            price_in(lookup(view.pm_bid@, pm_market)),
            p.qty,
            price_in(quote.yes_bid),
        ) == Ok::<Offer, ShapeRefusal>(p.offer),
        p.shape == Shape::RestPmUs ==> price_in(quote.yes_bid) is Some,
        p.cross matches Some(c) ==> (price_in(quote.yes_bid) matches Some(bid) && c.lock
            == locked_ct(
            fees,
            (Role::Taker, Role::Taker),
            less_by(bid, dollars(10_000)),
            total(ask, dollars(10_000)),
            kb,
            pb,
            p.qty,
        ) && reaches(c.lock, 20_000)),
{
}

/// What the texts of an order say of the offer that they write down.
proof fn lemma_written(
    fees: FeeSchedule,
    ladder: Seq<Rung>,
    kb: (int, int),
    pb: (int, int),
    ask: (int, int),
    pm_bid: Option<(int, int)>,
    bid: Option<(int, int)>,
    k_ask: Option<(int, int)>,
    shape: Shape,
    of: Offer,
    qty: i64,
    limit: Seq<char>,
    lock_ct: Seq<char>,
)
    requires
        fees.wf(),
        ladder_ok(ladder),
        qty_ok(qty),
        proper(kb),
        proper(pb),
        proper(ask),
        pm_bid matches Some(b) ==> proper(b),
        bid matches Some(b) ==> proper(b),
        k_ask matches Some(a) ==> proper(a),
        shape == Shape::RestKalshi ==> offer_rest_kalshi(
            fees,
            ladder,
            kb,
            pb,
            ask,
            qty,
            bid,
            k_ask,
        ) == Ok::<Offer, ShapeRefusal>(of),
        shape == Shape::RestPmUs ==> bid is Some && offer_rest_pmus(
            fees,
            kb,
            pb,
            ask,
            pm_bid,
            qty,
            bid,
        ) == Ok::<Offer, ShapeRefusal>(of),
        limit == crate::money::four_decimals(nearest(of.limit as int, 100)),
        lock_ct == crate::money::six_decimals(shown(of.lock)),
        reaches(of.lock, 20_000),
    ensures
        fraction_of(limit) matches Some(t) && t.1 == 10_000 && of.lock == (match shape {
            Shape::RestKalshi => locked_ct(
                fees,
                (Role::Maker, Role::Taker),
                dollars(100 * t.0),
                total(ask, dollars(10_000)),
                kb,
                pb,
                qty,
            ),
            Shape::RestPmUs => locked_ct(
                fees,
                (Role::Taker, Role::Maker),
                less_by(bid->0, dollars(10_000)),
                dollars(100 * t.0),
                kb,
                pb,
                qty,
            ),
        }),
        fraction_of(lock_ct) matches Some(t) && (-FARTHEST < t.0 < FARTHEST ==> spells_nearest(
            lock_ct,
            of.lock,
        )),
{
    match shape {
        Shape::RestKalshi => {
            lemma_offer_kalshi(fees, ladder, kb, pb, ask, qty, bid, k_ask, of, limit);
        },
        Shape::RestPmUs => {
            lemma_offer_pmus(fees, kb, pb, ask, pm_bid, qty, bid->0, of, limit);
        },
    }
    law_six_decimals_are_read_back(shown(of.lock));
    let m = shown(of.lock);
    if -FARTHEST < m < FARTHEST {
        lemma_lock_text(of.lock, lock_ct, m);
    }
}

/// An order locks what it says, and that is the selection floor at least: two
/// cents on every contract. It names the two bases of its lot. Where it rests on
/// Kalshi, the lock is that of a Kalshi sale at the order's own limit, as a
/// maker, and of a PM-US purchase a cent over the ask, as a taker; where it rests
/// on PM-US, that of a PM-US purchase at its own limit, as a maker, and of a
/// Kalshi sale a cent under the bid, as a taker. A cross locks what both of the
/// takers' prices leave.
#[verifier::rlimit(60)]
pub proof fn law_an_order_locks_what_it_says(
    fees: FeeSchedule,
    k_lot: Lot,
    pm_lot: Lot,
    inflight_clear: bool,
    cand: Exit,
    pm_market: Seq<char>,
    quote: Quote,
    view: EngineView,
    claims: Seq<(String, i64)>,
    now: u64,
    take_ok: bool,
    p: Plan,
    o: Order,
    ask: (int, int),
    kb: (int, int),
    pb: (int, int),
    l: int,
    m: int,
)
    requires
        decision(
            fees,
            Ok(k_lot),
            Ok(pm_lot),
            inflight_clear,
            cand,
            pm_market,
            quote,
            view,
            claims,
            now,
            take_ok,
        ) == Ok::<Plan, DecideRefusal>(p),
        fees.wf(),
        writes(o, p, k_lot, pm_lot, cand, pm_market, quote, view),
        lookup(view.pm_ask@, pm_market) matches Some(t) && fraction_of(t@) == Some(ask),
        fraction_of(k_lot.cost_per_ct@) == Some(kb),
        fraction_of(pm_lot.cost_per_ct@) == Some(pb),
        fraction_of(o.limit@) == Some((l, 10_000int)),
        fraction_of(o.lock_ct@) == Some((m, 1_000_000int)),
        -FARTHEST < m < FARTHEST,
    ensures
        o.k_basis@ == k_lot.cost_per_ct@,
        o.pm_basis@ == pm_lot.cost_per_ct@,
        o.shape == Shape::RestKalshi ==> ({
            let lock = locked_ct(
                fees,
                (Role::Maker, Role::Taker),
                dollars(100 * l),
                total(ask, dollars(10_000)),
                kb,
                pb,
                o.qty,
            );
            &&& reaches(lock, 20_000)
            &&& spells_nearest(o.lock_ct@, lock)
        }),
        o.shape == Shape::RestPmUs ==> (quote.yes_bid matches Some(t) && fraction_of(
            t@,
        ) matches Some(bid) && ({
            let lock = locked_ct(
                fees,
                (Role::Taker, Role::Maker),
                less_by(bid, dollars(10_000)),
                dollars(100 * l),
                kb,
                pb,
                o.qty,
            );
            &&& reaches(lock, 20_000)
            &&& spells_nearest(o.lock_ct@, lock)
        })),
        o.cross matches Some(c) ==> (quote.yes_bid matches Some(t) && fraction_of(t@) matches Some(
            bid,
        ) && ({
            let lock = locked_ct(
                fees,
                (Role::Taker, Role::Taker),
                less_by(bid, dollars(10_000)),
                total(ask, dollars(10_000)),
                kb,
                pb,
                o.qty,
            );
            &&& reaches(lock, 20_000)
            &&& (fraction_of(c.lock_ct@) matches Some(x) && -FARTHEST < x.0 < FARTHEST)
                ==> spells_nearest(c.lock_ct@, lock)
        })),
{
    lemma_planned(
        fees,
        k_lot,
        pm_lot,
        inflight_clear,
        cand,
        pm_market,
        quote,
        view,
        claims,
        now,
        take_ok,
        p,
        ask,
        kb,
        pb,
    );
    lemma_read_is_proper(lookup(view.pm_ask@, pm_market)->0@);
    lemma_read_is_proper(k_lot.cost_per_ct@);
    lemma_read_is_proper(pm_lot.cost_per_ct@);
    lemma_read_is_proper(quote.yes_bid->0@);
    lemma_read_is_proper(quote.yes_ask->0@);
    lemma_read_is_proper(lookup(view.pm_bid@, pm_market)->0@);
    let bid = price_in(quote.yes_bid);
    let close = total(ask, dollars(CENT as int));
    lemma_written(
        fees,
        legal(quote.ladder@),
        kb,
        pb,
        ask,
        price_in(lookup(view.pm_bid@, pm_market)),
        bid,
        price_in(quote.yes_ask),
        p.shape,
        p.offer,
        p.qty,
        o.limit@,
        o.lock_ct@,
    );
    if let Some(c) = o.cross {
        let lock = p.cross->0.lock;
        lemma_lock_is_proper(
            fees,
            (Role::Taker, Role::Taker),
            less_by(bid->0, dollars(CENT as int)),
            close,
            kb,
            pb,
            o.qty,
        );
        law_six_decimals_are_read_back(shown(lock));
        if let Some(x) = fraction_of(c.lock_ct@) {
            if -FARTHEST < x.0 < FARTHEST {
                lemma_lock_text(lock, c.lock_ct@, x.0);
            }
        }
    }
}

// ------------------------------------------------------------------ its size

/// The ladder that a close lifts, as the engine names it: leaving a standard
/// basket buys on PM-US, from the asks, and sells on Kalshi, to the bids; leaving
/// an inverse one sells on PM-US and buys on Kalshi.
pub open spec fn lifted(direction: Direction, shape: Shape, k: Seq<char>, pm: Seq<char>) -> Seq<
    char,
> {
    match (shape, direction) {
        (Shape::RestKalshi, Direction::Standard) => "polymarket_us"@ + ":"@ + pm + ":"@ + "ask"@,
        (Shape::RestKalshi, Direction::Inverse) => "polymarket_us"@ + ":"@ + pm + ":"@ + "bid"@,
        (Shape::RestPmUs, Direction::Standard) => "kalshi"@ + ":"@ + k + ":"@ + "bid"@,
        (Shape::RestPmUs, Direction::Inverse) => "kalshi"@ + ":"@ + k + ":"@ + "ask"@,
    }
}

/// The depth of an order's close is looked up on the ladder that the close lifts.
pub proof fn law_a_close_lifts_the_ladder_it_is_sized_on(
    direction: Direction,
    shape: Shape,
    k: Seq<char>,
    pm: Seq<char>,
)
    ensures
        depth_key(
            direction,
            shape,
            if shape == Shape::RestKalshi {
                pm
            } else {
                k
            },
        ) == lifted(direction, shape, k, pm),
{
}

/// An exit trades as much as it may: as many contracts as the least of what the
/// two legs hold, what the marks say, five, and what nobody has claimed of the
/// ladder that its close lifts, where its depth is known.
pub proof fn law_an_exit_trades_all_it_may(
    fees: FeeSchedule,
    k_lot: Lot,
    pm_lot: Lot,
    inflight_clear: bool,
    cand: Exit,
    pm_market: Seq<char>,
    quote: Quote,
    view: EngineView,
    claims: Seq<(String, i64)>,
    now: u64,
    take_ok: bool,
    p: Plan,
    o: Order,
)
    requires
        decision(
            fees,
            Ok(k_lot),
            Ok(pm_lot),
            inflight_clear,
            cand,
            pm_market,
            quote,
            view,
            claims,
            now,
            take_ok,
        ) == Ok::<Plan, DecideRefusal>(p),
        writes(o, p, k_lot, pm_lot, cand, pm_market, quote, view),
    ensures
        ({
            let ladder = lifted(Direction::Standard, o.shape, cand.market_id@, pm_market);
            let spoken_for = match lookup(claims, ladder) {
                Some(n) => n as int,
                None => 0int,
            };
            let room = match lookup(view.depth@, ladder) {
                Some(d) => d - spoken_for,
                None => o.qty as int,
            };
            &&& 1 <= o.qty
            &&& o.qty <= k_lot.qty
            &&& o.qty <= pm_lot.qty
            &&& o.qty <= cand.qty
            &&& o.qty <= 5
            &&& o.qty <= room
            &&& o.qty == k_lot.qty || o.qty == pm_lot.qty || o.qty == cand.qty || o.qty == 5 || (
            lookup(view.depth@, ladder) is Some && o.qty == room)
        }),
{
    law_a_close_lifts_the_ladder_it_is_sized_on(
        Direction::Standard,
        p.shape,
        cand.market_id@,
        pm_market,
    );
}

/// A resting exit that is kept could be closed whole on the ladder that its close
/// lifts, as far as its depth is known; and one whose ladder is known to hold less
/// is not kept.
pub proof fn law_a_kept_exit_can_be_closed_whole(fees: FeeSchedule, o: Order, view: EngineView)
    ensures
        ({
            let ladder = lifted(o.direction, o.shape, o.market@, o.pm_market@);
            lookup(view.depth@, ladder) matches Some(d) && d < o.qty ==> pay_refusal(fees, o, view)
                is Some
        }),
        pay_refusal(fees, o, view) matches Some(PayRefusal::Thin { depth }) ==> lookup(
            view.depth@,
            lifted(o.direction, o.shape, o.market@, o.pm_market@),
        ) == Some(depth) && depth < o.qty,
{
    law_a_close_lifts_the_ladder_it_is_sized_on(o.direction, o.shape, o.market@, o.pm_market@);
}

// ------------------------------------------------------- when it is decided

/// The touch that a text spells, where there is one.
pub open spec fn quoted(text: Option<String>) -> Option<(int, int)> {
    match text {
        Some(t) => fraction_of(t@),
        None => None,
    }
}

/// Whether a side was yielded thirty seconds ago or longer.
pub open spec fn settled(view: EngineView, market: Seq<char>, side: Seq<char>, now: u64) -> bool {
    yielded_at(view.suppressed_at@, (market, side)) matches Some(since) && since + 30_000_000_000
        <= now
}

/// An exit that pays is decided. A candidate of this process, on an active market
/// on which no hedge is owed, whose lot has contracts on both legs and bases that
/// can be read, is exited if one of its shapes can be priced by the book and
/// locks two cents a contract, the ladders that its close lifts are not known to
/// be short, and both sides that it might rest have been yielded for long enough.
/// It rests on the leg that locks more, and says what the other would have
/// locked.
pub proof fn law_an_exit_that_pays_is_decided(
    fees: FeeSchedule,
    k_lot: Lot,
    pm_lot: Lot,
    cand: Exit,
    pm_market: Seq<char>,
    quote: Quote,
    view: EngineView,
    claims: Seq<(String, i64)>,
    now: u64,
    take_ok: bool,
    ask: (int, int),
    kb: (int, int),
    pb: (int, int),
    n: i64,
    a: Result<Offer, ShapeRefusal>,
    b: Result<Offer, ShapeRefusal>,
)
    requires
        cand.actionable,
        quote.status@ == "active"@,
        lookup(view.pm_ask@, pm_market) matches Some(t) && fraction_of(t@) == Some(ask),
        fraction_of(k_lot.cost_per_ct@) == Some(kb),
        fraction_of(pm_lot.cost_per_ct@) == Some(pb),
        1 <= n <= 5 && n <= k_lot.qty && n <= pm_lot.qty && n <= cand.qty,
        n == 5 || n == k_lot.qty || n == pm_lot.qty || n == cand.qty,
        lookup(
            view.depth@,
            lifted(Direction::Standard, Shape::RestKalshi, cand.market_id@, pm_market),
        ) is None,
        lookup(
            view.depth@,
            lifted(Direction::Standard, Shape::RestPmUs, cand.market_id@, pm_market),
        ) is None,
        settled(view, cand.market_id@, "ask"@, now),
        settled(view, pm_market, "bid"@, now),
        a == offer_rest_kalshi(
            fees,
            legal(quote.ladder@),
            kb,
            pb,
            ask,
            n,
            quoted(quote.yes_bid),
            quoted(quote.yes_ask),
        ),
        b == offer_rest_pmus(
            fees,
            kb,
            pb,
            ask,
            quoted(lookup(view.pm_bid@, pm_market)),
            n,
            quoted(quote.yes_bid),
        ),
    ensures
        ({
            let r = decision(
                fees,
                Ok(k_lot),
                Ok(pm_lot),
                true,
                cand,
                pm_market,
                quote,
                view,
                claims,
                now,
                take_ok,
            );
            let a_pays = a matches Ok(x) && reaches(x.lock, 20_000);
            let b_pays = b matches Ok(y) && reaches(y.lock, 20_000);
            &&& r is Ok <==> a_pays || b_pays
            &&& r matches Ok(p) ==> p.qty == n
            &&& a_pays && !b_pays ==> (r matches Ok(p) && p.shape == Shape::RestKalshi && p.offer
                == a->Ok_0 && p.runner_up is None)
            &&& b_pays && !a_pays ==> (r matches Ok(p) && p.shape == Shape::RestPmUs && p.offer
                == b->Ok_0 && p.runner_up is None)
            &&& a_pays && b_pays ==> ({
                let (x, y) = (a->Ok_0.lock, b->Ok_0.lock);
                if x.0 * y.1 >= y.0 * x.1 {
                    r matches Ok(p) && p.shape == Shape::RestKalshi && p.offer == a->Ok_0
                        && p.runner_up == Some(y)
                } else {
                    r matches Ok(p) && p.shape == Shape::RestPmUs && p.offer == b->Ok_0
                        && p.runner_up == Some(x)
                }
            })
        }),
{
    law_a_close_lifts_the_ladder_it_is_sized_on(
        Direction::Standard,
        Shape::RestKalshi,
        cand.market_id@,
        pm_market,
    );
    law_a_close_lifts_the_ladder_it_is_sized_on(
        Direction::Standard,
        Shape::RestPmUs,
        cand.market_id@,
        pm_market,
    );
}

/// As many of `n` contracts as nobody has claimed of the ladder that a shape's close
/// lifts: all of them where its depth is not known, and none below nothing.
pub open spec fn room_for(
    n: int,
    view: EngineView,
    claims: Seq<(String, i64)>,
    ladder: Seq<char>,
) -> int {
    let spoken_for = match lookup(claims, ladder) {
        Some(c) => c as int,
        None => 0int,
    };
    match lookup(view.depth@, ladder) {
        Some(d) => if d - spoken_for >= n {
            n
        } else if d - spoken_for >= 0 {
            d - spoken_for
        } else {
            0
        },
        None => n,
    }
}

proof fn lemma_sized(
    n: i64,
    view: EngineView,
    claims: Seq<(String, i64)>,
    shape: Shape,
    k: Seq<char>,
    pm: Seq<char>,
)
    requires
        1 <= n,
    ensures
        sized(n, view, claims, shape, k, pm) == room_for(
            n as int,
            view,
            claims,
            lifted(Direction::Standard, shape, k, pm),
        ),
{
    law_a_close_lifts_the_ladder_it_is_sized_on(Direction::Standard, shape, k, pm);
}

/// Each shape of an exit is priced at the quantity that the ladder of its own close
/// has room for, and is out where that has none. The exit is decided exactly where
/// one of them pays at its quantity, and trades the quantity of the one that it
/// takes: the one that locks more on a contract.
#[verifier::rlimit(60)]
pub proof fn law_each_shape_is_sized_to_its_own_close(
    fees: FeeSchedule,
    k_lot: Lot,
    pm_lot: Lot,
    cand: Exit,
    pm_market: Seq<char>,
    quote: Quote,
    view: EngineView,
    claims: Seq<(String, i64)>,
    now: u64,
    take_ok: bool,
    ask: (int, int),
    kb: (int, int),
    pb: (int, int),
    n: i64,
    qa: i64,
    qb: i64,
    a: Result<Offer, ShapeRefusal>,
    b: Result<Offer, ShapeRefusal>,
)
    requires
        cand.actionable,
        quote.status@ == "active"@,
        lookup(view.pm_ask@, pm_market) matches Some(t) && fraction_of(t@) == Some(ask),
        fraction_of(k_lot.cost_per_ct@) == Some(kb),
        fraction_of(pm_lot.cost_per_ct@) == Some(pb),
        1 <= n <= 5 && n <= k_lot.qty && n <= pm_lot.qty && n <= cand.qty,
        n == 5 || n == k_lot.qty || n == pm_lot.qty || n == cand.qty,
        qa == room_for(
            n as int,
            view,
            claims,
            lifted(Direction::Standard, Shape::RestKalshi, cand.market_id@, pm_market),
        ),
        qb == room_for(
            n as int,
            view,
            claims,
            lifted(Direction::Standard, Shape::RestPmUs, cand.market_id@, pm_market),
        ),
        settled(view, cand.market_id@, "ask"@, now),
        settled(view, pm_market, "bid"@, now),
        a == offer_rest_kalshi(
            fees,
            legal(quote.ladder@),
            kb,
            pb,
            ask,
            qa,
            quoted(quote.yes_bid),
            quoted(quote.yes_ask),
        ),
        b == offer_rest_pmus(
            fees,
            kb,
            pb,
            ask,
            quoted(lookup(view.pm_bid@, pm_market)),
            qb,
            quoted(quote.yes_bid),
        ),
    ensures
        ({
            let r = decision(
                fees,
                Ok(k_lot),
                Ok(pm_lot),
                true,
                cand,
                pm_market,
                quote,
                view,
                claims,
                now,
                take_ok,
            );
            let a_pays = qa >= 1 && a is Ok && reaches(a->Ok_0.lock, 20_000);
            let b_pays = qb >= 1 && b is Ok && reaches(b->Ok_0.lock, 20_000);
            &&& r is Ok <==> a_pays || b_pays
            &&& a_pays && !b_pays ==> (r matches Ok(p) && p.shape == Shape::RestKalshi && p.qty
                == qa && p.offer == a->Ok_0)
            &&& b_pays && !a_pays ==> (r matches Ok(p) && p.shape == Shape::RestPmUs && p.qty == qb
                && p.offer == b->Ok_0)
            &&& a_pays && b_pays ==> ({
                let (x, y) = (a->Ok_0.lock, b->Ok_0.lock);
                if x.0 * y.1 >= y.0 * x.1 {
                    r matches Ok(p) && p.shape == Shape::RestKalshi && p.qty == qa && p.offer
                        == a->Ok_0 && p.runner_up == Some(y)
                } else {
                    r matches Ok(p) && p.shape == Shape::RestPmUs && p.qty == qb && p.offer
                        == b->Ok_0 && p.runner_up == Some(x)
                }
            })
        }),
{
    lemma_sized(n, view, claims, Shape::RestKalshi, cand.market_id@, pm_market);
    lemma_sized(n, view, claims, Shape::RestPmUs, cand.market_id@, pm_market);
    assert(clip(k_lot.qty, pm_lot.qty, cand.qty) == n);
    assert(decision(
        fees,
        Ok(k_lot),
        Ok(pm_lot),
        true,
        cand,
        pm_market,
        quote,
        view,
        claims,
        now,
        take_ok,
    ) == priced(
        fees,
        kb,
        pb,
        ask,
        n,
        cand,
        pm_market,
        quote,
        view,
        claims,
        now,
        take_ok,
    ));
}

/// An exit crosses wherever it may and crossing pays: the flag is up, the side
/// that it lifts first has been yielded for long enough, there is a bid of more
/// than a cent to sell to, and both takers' prices lock two cents a contract.
pub proof fn law_an_exit_crosses_where_that_pays(
    fees: FeeSchedule,
    k_lot: Lot,
    pm_lot: Lot,
    inflight_clear: bool,
    cand: Exit,
    pm_market: Seq<char>,
    quote: Quote,
    view: EngineView,
    claims: Seq<(String, i64)>,
    now: u64,
    take_ok: bool,
    p: Plan,
    ask: (int, int),
    kb: (int, int),
    pb: (int, int),
)
    requires
        decision(
            fees,
            Ok(k_lot),
            Ok(pm_lot),
            inflight_clear,
            cand,
            pm_market,
            quote,
            view,
            claims,
            now,
            take_ok,
        ) == Ok::<Plan, DecideRefusal>(p),
        lookup(view.pm_ask@, pm_market) matches Some(t) && fraction_of(t@) == Some(ask),
        fraction_of(k_lot.cost_per_ct@) == Some(kb),
        fraction_of(pm_lot.cost_per_ct@) == Some(pb),
    ensures
        p.cross is Some <==> {
            &&& take_ok
            &&& match p.shape {
                Shape::RestKalshi => settled(view, cand.market_id@, "bid"@, now),
                Shape::RestPmUs => settled(view, pm_market, "ask"@, now),
            }
            &&& quoted(quote.yes_bid) matches Some(bid) && 100 * bid.0 > bid.1 && reaches(
                locked_ct(
                    fees,
                    (Role::Taker, Role::Taker),
                    less_by(bid, dollars(10_000)),
                    total(ask, dollars(10_000)),
                    kb,
                    pb,
                    p.qty,
                ),
                20_000,
            )
        },
        match p.shape {
            Shape::RestKalshi => settled(view, cand.market_id@, "ask"@, now),
            Shape::RestPmUs => settled(view, pm_market, "bid"@, now),
        },
{
    if let Some(bid) = quoted(quote.yes_bid) {
        let take = less_by(bid, dollars(10_000));
        assert(take.0 == bid.0 * 1_000_000 - 10_000 * bid.1);
    }
}

/// Only what is ours to exit and can trade is exited: the candidate is in scope, its
/// Kalshi market is active, no hedge is owed on it, the ledger vouches for both
/// legs, and the PM-US ask and both bases can be read. The order is for that lot.
pub proof fn law_only_what_is_ours_and_trades_is_exited(
    fees: FeeSchedule,
    k_lot: Result<Lot, String>,
    pm_lot: Result<Lot, String>,
    inflight_clear: bool,
    cand: Exit,
    pm_market: Seq<char>,
    quote: Quote,
    view: EngineView,
    claims: Seq<(String, i64)>,
    now: u64,
    take_ok: bool,
    p: Plan,
    o: Order,
)
    requires
        decision(
            fees,
            k_lot,
            pm_lot,
            inflight_clear,
            cand,
            pm_market,
            quote,
            view,
            claims,
            now,
            take_ok,
        ) == Ok::<Plan, DecideRefusal>(p),
        writes(o, p, k_lot->Ok_0, pm_lot->Ok_0, cand, pm_market, quote, view),
    ensures
        cand.actionable,
        quote.status@ == "active"@,
        inflight_clear,
        k_lot matches Ok(k) && fraction_of(k.cost_per_ct@) is Some && o.closes_ts == k.open_ts
            && o.k_basis@ == k.cost_per_ct@,
        pm_lot matches Ok(pm) && fraction_of(pm.cost_per_ct@) is Some && o.pm_basis@
            == pm.cost_per_ct@,
        lookup(view.pm_ask@, pm_market) matches Some(t) && fraction_of(t@) is Some,
        o.rel_id@ == cand.rel_id@,
        o.market@ == cand.market_id@,
        o.pm_market@ == pm_market,
        o.direction == Direction::Standard,
        match o.shape {
            Shape::RestKalshi => lookup(view.pm_ask@, pm_market) matches Some(t)
                && o.pm_ask_at_decision@ == t@,
            Shape::RestPmUs => quote.yes_bid matches Some(t) && o.pm_ask_at_decision@ == t@,
        },
{
}

/// An order rests where its book and its lot say, to half a ten-thousandth of a
/// dollar: as an ask on Kalshi, by that market's ladder, its quotes and the least
/// ask that locks two cents against a PM-US purchase a cent over the ask; or as a
/// bid on PM-US, by its quotes and the dearest bid that locks them against a Kalshi
/// sale a cent under the bid.
pub proof fn law_an_order_rests_where_its_book_says(
    fees: FeeSchedule,
    k_lot: Lot,
    pm_lot: Lot,
    inflight_clear: bool,
    cand: Exit,
    pm_market: Seq<char>,
    quote: Quote,
    view: EngineView,
    claims: Seq<(String, i64)>,
    now: u64,
    take_ok: bool,
    p: Plan,
    o: Order,
    ask: (int, int),
    kb: (int, int),
    pb: (int, int),
) -> (found: (Px, Px))
    requires
        decision(
            fees,
            Ok(k_lot),
            Ok(pm_lot),
            inflight_clear,
            cand,
            pm_market,
            quote,
            view,
            claims,
            now,
            take_ok,
        ) == Ok::<Plan, DecideRefusal>(p),
        fees.wf(),
        writes(o, p, k_lot, pm_lot, cand, pm_market, quote, view),
        lookup(view.pm_ask@, pm_market) matches Some(t) && fraction_of(t@) == Some(ask),
        fraction_of(k_lot.cost_per_ct@) == Some(kb),
        fraction_of(pm_lot.cost_per_ct@) == Some(pb),
    ensures
        fraction_of(o.limit@) matches Some(l) && l.1 == 10_000 && -50 <= 100 * l.0 - found.1 <= 50,
        o.shape == Shape::RestKalshi ==> {
            &&& least_ask(
                fees,
                legal(quote.ladder@),
                kb,
                pb,
                total(ask, dollars(10_000)),
                o.qty,
                Role::Maker,
                Role::Taker,
                20_000,
            ) == Ok::<Px, PriceRefusal>(found.0)
            &&& resting_ask(
                legal(quote.ladder@),
                found.0,
                quoted(quote.yes_bid),
                quoted(quote.yes_ask),
            ) == Ok::<Px, PriceRefusal>(found.1)
        },
        o.shape == Shape::RestPmUs ==> {
            &&& quoted(quote.yes_bid) matches Some(bid) && dearest_close(
                fees,
                less_by(bid, dollars(10_000)),
                kb,
                pb,
                o.qty,
                Role::Taker,
                Role::Maker,
                20_000,
            ) == Ok::<Px, PriceRefusal>(found.0)
            &&& resting_bid(
                found.0,
                quoted(lookup(view.pm_bid@, pm_market)),
                Some(ask),
            ) == Ok::<Px, PriceRefusal>(found.1)
        },
{
    lemma_planned(
        fees,
        k_lot,
        pm_lot,
        inflight_clear,
        cand,
        pm_market,
        quote,
        view,
        claims,
        now,
        take_ok,
        p,
        ask,
        kb,
        pb,
    );
    lemma_read_is_proper(lookup(view.pm_ask@, pm_market)->0@);
    lemma_read_is_proper(k_lot.cost_per_ct@);
    lemma_read_is_proper(pm_lot.cost_per_ct@);
    lemma_read_is_proper(quote.yes_bid->0@);
    lemma_read_is_proper(quote.yes_ask->0@);
    lemma_read_is_proper(lookup(view.pm_bid@, pm_market)->0@);
    match p.shape {
        Shape::RestKalshi => lemma_rests_on_kalshi(
            fees,
            legal(quote.ladder@),
            kb,
            pb,
            ask,
            p.qty,
            quoted(quote.yes_bid),
            quoted(quote.yes_ask),
            p.offer,
            o.limit@,
        ),
        Shape::RestPmUs => lemma_rests_on_pmus(
            fees,
            kb,
            pb,
            ask,
            quoted(lookup(view.pm_bid@, pm_market)),
            p.qty,
            quoted(quote.yes_bid)->0,
            p.offer,
            o.limit@,
        ),
    }
}

proof fn lemma_rests_on_kalshi(
    fees: FeeSchedule,
    ladder: Seq<Rung>,
    kb: (int, int),
    pb: (int, int),
    ask: (int, int),
    qty: i64,
    bid: Option<(int, int)>,
    k_ask: Option<(int, int)>,
    of: Offer,
    text: Seq<char>,
) -> (found: (Px, Px))
    requires
        ladder_ok(ladder),
        qty_ok(qty),
        proper(kb),
        proper(pb),
        proper(ask),
        bid matches Some(b) ==> proper(b),
        k_ask matches Some(a) ==> proper(a),
        offer_rest_kalshi(fees, ladder, kb, pb, ask, qty, bid, k_ask) == Ok::<Offer, ShapeRefusal>(
            of,
        ),
        text == crate::money::four_decimals(nearest(of.limit as int, 100)),
    ensures
        fraction_of(text) matches Some(l) && l.1 == 10_000 && -50 <= 100 * l.0 - found.1 <= 50,
        least_ask(
            fees,
            ladder,
            kb,
            pb,
            total(ask, dollars(10_000)),
            qty,
            Role::Maker,
            Role::Taker,
            20_000,
        ) == Ok::<Px, PriceRefusal>(found.0),
        resting_ask(ladder, found.0, bid, k_ask) == Ok::<Px, PriceRefusal>(found.1),
{
    let close = total(ask, dollars(CENT as int));
    lemma_floor_in_range(fees, ladder, kb, pb, close, qty, Role::Maker, Role::Taker, EXIT_FLOOR);
    let floor = least_ask(
        fees,
        ladder,
        kb,
        pb,
        close,
        qty,
        Role::Maker,
        Role::Taker,
        EXIT_FLOOR,
    )->Ok_0;
    let q = resting_ask(ladder, floor, bid, k_ask)->Ok_0;
    law_a_resting_ask_is_a_maker(ladder, floor, bid, k_ask, q);
    lemma_limit_text(q, text);
    (floor, q)
}

proof fn lemma_rests_on_pmus(
    fees: FeeSchedule,
    kb: (int, int),
    pb: (int, int),
    ask: (int, int),
    pm_bid: Option<(int, int)>,
    qty: i64,
    bid: (int, int),
    of: Offer,
    text: Seq<char>,
) -> (found: (Px, Px))
    requires
        fees.wf(),
        qty_ok(qty),
        proper(kb),
        proper(pb),
        proper(ask),
        proper(bid),
        pm_bid matches Some(b) ==> proper(b),
        offer_rest_pmus(fees, kb, pb, ask, pm_bid, qty, Some(bid)) == Ok::<Offer, ShapeRefusal>(of),
        text == crate::money::four_decimals(nearest(of.limit as int, 100)),
    ensures
        fraction_of(text) matches Some(l) && l.1 == 10_000 && -50 <= 100 * l.0 - found.1 <= 50,
        dearest_close(
            fees,
            less_by(bid, dollars(10_000)),
            kb,
            pb,
            qty,
            Role::Taker,
            Role::Maker,
            20_000,
        ) == Ok::<Px, PriceRefusal>(found.0),
        resting_bid(found.0, pm_bid, Some(ask)) == Ok::<Px, PriceRefusal>(found.1),
{
    let take = less_by(bid, dollars(CENT as int));
    lemma_ceiling_in_range(fees, take, kb, pb, qty, Role::Taker, Role::Maker, EXIT_FLOOR);
    let ceiling = dearest_close(
        fees,
        take,
        kb,
        pb,
        qty,
        Role::Taker,
        Role::Maker,
        EXIT_FLOOR,
    )->Ok_0;
    let q = resting_bid(ceiling, pm_bid, Some(ask))->Ok_0;
    law_a_resting_bid_is_a_maker(ceiling, pm_bid, Some(ask), q);
    lemma_limit_text(q, text);
    (ceiling, q)
}

/// A candidate is refused for the first thing that stands in its way: its scope, its
/// market, a hedge that is owed, the PM-US ask, the two legs, their quantities, and
/// their bases.
pub proof fn law_a_candidate_is_refused_for_the_first_reason(
    fees: FeeSchedule,
    k_lot: Result<Lot, String>,
    pm_lot: Result<Lot, String>,
    inflight_clear: bool,
    cand: Exit,
    pm_market: Seq<char>,
    quote: Quote,
    view: EngineView,
    claims: Seq<(String, i64)>,
    now: u64,
    take_ok: bool,
    why: DecideRefusal,
)
    requires
        decision(
            fees,
            k_lot,
            pm_lot,
            inflight_clear,
            cand,
            pm_market,
            quote,
            view,
            claims,
            now,
            take_ok,
        ) == Err::<Plan, DecideRefusal>(why),
    ensures
        ({
            let trades = cand.actionable && quote.status@ == "active"@ && inflight_clear;
            let asked = lookup(view.pm_ask@, pm_market);
            let priced = trades && asked is Some && fraction_of(asked->0@) is Some;
            let held = priced && k_lot is Ok && pm_lot is Ok;
            let some = held && k_lot->Ok_0.qty >= 1 && pm_lot->Ok_0.qty >= 1 && cand.qty >= 1;
            let kb = fraction_of(k_lot->Ok_0.cost_per_ct@);
            let pb = fraction_of(pm_lot->Ok_0.cost_per_ct@);
            &&& why is OutOfScope <==> !cand.actionable
            &&& why is NotActive <==> cand.actionable && quote.status@ != "active"@
            &&& why is Inflight <==> cand.actionable && quote.status@ == "active"@
                && !inflight_clear
            &&& why is NoPmAsk <==> trades && asked is None
            &&& why is BadPmAsk <==> trades && asked is Some && fraction_of(asked->0@) is None
            &&& why is KalshiLot <==> priced && k_lot is Err
            &&& why is PmLot <==> priced && k_lot is Ok && pm_lot is Err
            &&& why is NothingToExit <==> held && !some
            &&& why matches DecideRefusal::NothingToExit { k, pm, marks } ==> k
                == k_lot->Ok_0.qty && pm == pm_lot->Ok_0.qty && marks == cand.qty
            &&& why is BadKalshiBasis <==> some && kb is None
            &&& why is BadPmBasis <==> some && kb is Some && pb is None
        }),
{
}

/// An exit that pays waits for the quoters to yield the side that it rests on: it is
/// refused where they were not told to, and for thirty seconds after they were.
pub proof fn law_an_exit_waits_for_its_side(
    fees: FeeSchedule,
    k_lot: Result<Lot, String>,
    pm_lot: Result<Lot, String>,
    inflight_clear: bool,
    cand: Exit,
    pm_market: Seq<char>,
    quote: Quote,
    view: EngineView,
    claims: Seq<(String, i64)>,
    now: u64,
    take_ok: bool,
    why: DecideRefusal,
)
    requires
        decision(
            fees,
            k_lot,
            pm_lot,
            inflight_clear,
            cand,
            pm_market,
            quote,
            view,
            claims,
            now,
            take_ok,
        ) == Err::<Plan, DecideRefusal>(why),
    ensures
        why matches DecideRefusal::NotYielded { shape } ==> yielded_at(
            view.suppressed_at@,
            match shape {
                Shape::RestKalshi => (cand.market_id@, "ask"@),
                Shape::RestPmUs => (pm_market, "bid"@),
            },
        ) is None,
        why matches DecideRefusal::Settling { shape, age_ns } ==> (yielded_at(
            view.suppressed_at@,
            match shape {
                Shape::RestKalshi => (cand.market_id@, "ask"@),
                Shape::RestPmUs => (pm_market, "bid"@),
            },
        ) matches Some(since) && age_ns < 30_000_000_000 && (now >= since ==> age_ns == now - since)
            && (now < since ==> age_ns == 0)),
{
}

} // verus!
