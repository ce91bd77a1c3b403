//! That a second leg trades where it pays, and is refused only where it does not.
use crate::assoc::lookup;
use crate::board::EngineView;
use crate::closing::{close_price, lemma_read_is_proper, price_refusal, CloseRefusal};
use crate::decimal::{below, fraction_of, total};
use crate::fees::FeeSchedule;
use crate::found_laws::{law_a_close_is_found_where_one_pays, law_an_ask_is_found_where_one_pays};
use crate::ladder::pennies;
use crate::money::{qty_ok, Px};
use crate::order::Order;
use crate::pricing::{dearest_close, least_ask, locked_ct, micro, reaches};
use crate::pricing_laws::{
    law_close_limit_is_the_highest_penny, law_exit_limit_is_the_lowest_penny,
};
use crate::ratio::{dollars, less_by};
use crate::venue::{Role, Shape};
use vstd::prelude::*;

verus! {

/// The book that the second leg of a standard exit trades against: it buys from
/// the PM-US asks, or sells to the Kalshi bids.
pub open spec fn against(o: Order, view: EngineView) -> Option<String> {
    match o.shape {
        Shape::RestKalshi => lookup(view.pm_ask@, o.pm_market@),
        Shape::RestPmUs => lookup(view.k_bid@, o.market@),
    }
}

/// What the second leg locks at a price, of a first leg that filled at `fill` as
/// a maker. The second leg takes.
pub open spec fn closed_at(
    fees: FeeSchedule,
    shape: Shape,
    fill: (int, int),
    p: int,
    kb: (int, int),
    pb: (int, int),
    qty: i64,
) -> (int, int) {
    match shape {
        Shape::RestKalshi => locked_ct(
            fees,
            (Role::Maker, Role::Taker),
            fill,
            dollars(p),
            kb,
            pb,
            qty,
        ),
        Shape::RestPmUs => locked_ct(
            fees,
            (Role::Taker, Role::Maker),
            dollars(p),
            fill,
            kb,
            pb,
            qty,
        ),
    }
}

/// Whether a price trades against a touch at once: a purchase that pays the ask,
/// or a sale that takes the bid.
pub open spec fn trades(shape: Shape, p: int, touch: (int, int)) -> bool {
    match shape {
        Shape::RestKalshi => touch.0 * 1_000_000 <= p * touch.1,
        Shape::RestPmUs => touch.0 * 1_000_000 >= p * touch.1,
    }
}

/// Whether `q` is a price further from the touch than `p`: dearer to buy at, or
/// cheaper to sell at.
pub open spec fn further(shape: Shape, p: int, q: int) -> bool {
    match shape {
        Shape::RestKalshi => p < q,
        Shape::RestPmUs => q < p,
    }
}

/// A close that is priced is a whole cent that trades at once against the book of
/// its own leg and locks half a cent a contract; and it reaches as far into that
/// book as it may, since no cent further does.
pub proof fn law_a_priced_close_trades_and_pays(
    fees: FeeSchedule,
    o: Order,
    filled: i64,
    view: EngineView,
    kb: (int, int),
    pb: (int, int),
    fill: (int, int),
    p: Px,
)
    requires
        fees.wf(),
        qty_ok(filled),
        fraction_of(o.k_basis@) == Some(kb),
        fraction_of(o.pm_basis@) == Some(pb),
        fraction_of(o.limit@) == Some(fill),
        close_price(fees, o, filled, view) == Ok::<Px, CloseRefusal>(p),
    ensures
        p > 0,
        p % 10_000 == 0,
        against(o, view) matches Some(t) && fraction_of(t@) matches Some(touch) && trades(
            o.shape,
            p as int,
            touch,
        ),
        reaches(closed_at(fees, o.shape, fill, p as int, kb, pb, filled), 5_000),
        forall|q: Px|
            0 < q <= 1_000_000 && q % 10_000 == 0 && #[trigger] further(
                o.shape,
                p as int,
                q as int,
            ) ==> !reaches(closed_at(fees, o.shape, fill, q as int, kb, pb, filled), 5_000),
{
    lemma_read_is_proper(o.k_basis@);
    lemma_read_is_proper(o.pm_basis@);
    lemma_read_is_proper(o.limit@);
    let touch = fraction_of(against(o, view)->0@)->0;
    lemma_read_is_proper(against(o, view)->0@);
    let (x, t0, t1) = (p as int, touch.0 * 1_000_000, touch.1);
    assert(micro(touch) == (t0, t1));
    assert(t0 * 1 == t0);
    assert(below((x, 1), (t0, t1)) == (x * t1 < t0 * 1));
    match o.shape {
        Shape::RestKalshi => {
            law_close_limit_is_the_highest_penny(
                fees,
                fill,
                kb,
                pb,
                filled,
                Role::Maker,
                Role::Taker,
                5_000,
                p,
            );
        },
        Shape::RestPmUs => {
            law_exit_limit_is_the_lowest_penny(
                fees,
                kb,
                pb,
                fill,
                filled,
                Role::Taker,
                Role::Maker,
                5_000,
                p,
            );
        },
    }
}

/// A close is priced wherever one pays: if any whole cent trades at once against
/// the book of the second leg and locks half a cent a contract, there is a close.
pub proof fn law_a_close_that_pays_is_priced(
    fees: FeeSchedule,
    o: Order,
    filled: i64,
    view: EngineView,
    kb: (int, int),
    pb: (int, int),
    fill: (int, int),
    touch: (int, int),
    p: Px,
)
    requires
        fees.wf(),
        qty_ok(filled),
        fraction_of(o.k_basis@) == Some(kb),
        fraction_of(o.pm_basis@) == Some(pb),
        fraction_of(o.limit@) == Some(fill),
        against(o, view) matches Some(t) && fraction_of(t@) == Some(touch),
        0 < p < 1_000_000,
        p % 10_000 == 0,
        trades(o.shape, p as int, touch),
        reaches(closed_at(fees, o.shape, fill, p as int, kb, pb, filled), 5_000),
    ensures
        close_price(fees, o, filled, view) is Ok,
{
    lemma_read_is_proper(o.k_basis@);
    lemma_read_is_proper(o.pm_basis@);
    lemma_read_is_proper(o.limit@);
    lemma_read_is_proper(against(o, view)->0@);
    let (x, t0, t1) = (p as int, touch.0 * 1_000_000, touch.1);
    assert(micro(touch) == (t0, t1));
    match o.shape {
        Shape::RestKalshi => {
            law_a_close_is_found_where_one_pays(
                fees,
                fill,
                kb,
                pb,
                filled,
                Role::Maker,
                Role::Taker,
                5_000,
                p,
            );
            let c = dearest_close(
                fees,
                fill,
                kb,
                pb,
                filled,
                Role::Maker,
                Role::Taker,
                5_000,
            )->Ok_0;
            law_close_limit_is_the_highest_penny(
                fees,
                fill,
                kb,
                pb,
                filled,
                Role::Maker,
                Role::Taker,
                5_000,
                c,
            );
            let y = c as int;
            assert(x <= y);
            assert(x * t1 <= y * t1) by (nonlinear_arith)
                requires
                    x <= y,
                    t1 > 0,
            ;
        },
        Shape::RestPmUs => {
            law_an_ask_is_found_where_one_pays(
                fees,
                kb,
                pb,
                fill,
                filled,
                Role::Taker,
                Role::Maker,
                5_000,
                p,
            );
            let c = least_ask(
                fees,
                pennies(),
                kb,
                pb,
                fill,
                filled,
                Role::Taker,
                Role::Maker,
                5_000,
            )->Ok_0;
            law_exit_limit_is_the_lowest_penny(
                fees,
                kb,
                pb,
                fill,
                filled,
                Role::Taker,
                Role::Maker,
                5_000,
                c,
            );
            let y = c as int;
            assert(y <= x);
            assert(y * t1 <= x * t1) by (nonlinear_arith)
                requires
                    y <= x,
                    t1 > 0,
            ;
        },
    }
}

/// What a resting exit would lock if it filled now at `p` and its second leg were
/// taken one cent through the touch.
pub open spec fn would_lock(
    fees: FeeSchedule,
    shape: Shape,
    touch: (int, int),
    p: int,
    kb: (int, int),
    pb: (int, int),
    qty: i64,
) -> (int, int) {
    match shape {
        Shape::RestKalshi => locked_ct(
            fees,
            (Role::Maker, Role::Taker),
            dollars(p),
            total(touch, dollars(10_000)),
            kb,
            pb,
            qty,
        ),
        Shape::RestPmUs => locked_ct(
            fees,
            (Role::Taker, Role::Maker),
            less_by(touch, dollars(10_000)),
            dollars(p),
            kb,
            pb,
            qty,
        ),
    }
}

/// A resting exit is pulled for its price only where it no longer pays: one that
/// rests on a whole cent under a dollar, and would still lock two cents a contract
/// against the book of its second leg, is kept.
pub proof fn law_an_exit_that_pays_is_kept(
    fees: FeeSchedule,
    o: Order,
    view: EngineView,
    kb: (int, int),
    pb: (int, int),
    touch: (int, int),
    resting: Px,
)
    requires
        fees.wf(),
        qty_ok(o.qty),
        fraction_of(o.k_basis@) == Some(kb),
        fraction_of(o.pm_basis@) == Some(pb),
        against(o, view) matches Some(t) && fraction_of(t@) == Some(touch),
        fraction_of(o.limit@) matches Some(x) && x.0 * 1_000_000 == resting * x.1,
        0 < resting < 1_000_000,
        resting % 10_000 == 0,
        reaches(would_lock(fees, o.shape, touch, resting as int, kb, pb, o.qty), 20_000),
    ensures
        price_refusal(fees, o, view) is None,
{
    lemma_read_is_proper(o.k_basis@);
    lemma_read_is_proper(o.pm_basis@);
    lemma_read_is_proper(o.limit@);
    lemma_read_is_proper(against(o, view)->0@);
    let x = fraction_of(o.limit@)->0;
    assert(micro(x) == (resting * x.1, x.1));
    let (r, d) = (resting as int, x.1);
    match o.shape {
        Shape::RestKalshi => {
            let close = total(touch, dollars(10_000));
            law_an_ask_is_found_where_one_pays(
                fees,
                kb,
                pb,
                close,
                o.qty,
                Role::Maker,
                Role::Taker,
                20_000,
                resting,
            );
            let c = least_ask(
                fees,
                pennies(),
                kb,
                pb,
                close,
                o.qty,
                Role::Maker,
                Role::Taker,
                20_000,
            )->Ok_0;
            law_exit_limit_is_the_lowest_penny(
                fees,
                kb,
                pb,
                close,
                o.qty,
                Role::Maker,
                Role::Taker,
                20_000,
                c,
            );
            let y = c as int;
            assert(y <= r);
            assert(y * d <= r * d) by (nonlinear_arith)
                requires
                    y <= r,
                    d > 0,
            ;
        },
        Shape::RestPmUs => {
            let take = less_by(touch, dollars(10_000));
            law_a_close_is_found_where_one_pays(
                fees,
                take,
                kb,
                pb,
                o.qty,
                Role::Taker,
                Role::Maker,
                20_000,
                resting,
            );
            let c = dearest_close(
                fees,
                take,
                kb,
                pb,
                o.qty,
                Role::Taker,
                Role::Maker,
                20_000,
            )->Ok_0;
            law_close_limit_is_the_highest_penny(
                fees,
                take,
                kb,
                pb,
                o.qty,
                Role::Taker,
                Role::Maker,
                20_000,
                c,
            );
            let y = c as int;
            assert(r <= y);
            assert(r * d <= y * d) by (nonlinear_arith)
                requires
                    r <= y,
                    d > 0,
            ;
        },
    }
}

} // verus!
