//! Which prices a tick ladder holds.
use crate::ladder::{ladder_ok, law_tick_ceil_is_tight, legal, rung_at, tick_ceil, Rung};
use crate::money::{ceil_div, lemma_ceil_div};
use vstd::prelude::*;

verus! {

/// The rung of a price is the first one that it lies on: at or above its start, and
/// below its end.
pub proof fn law_a_price_is_on_the_first_rung_that_holds_it(
    ladder: Seq<Rung>,
    num: int,
    den: int,
    i: int,
)
    requires
        0 <= i < ladder.len(),
        ladder[i].start * den <= num < ladder[i].end * den,
        forall|j: int|
            0 <= j < i ==> !((#[trigger] ladder[j]).start * den <= num < ladder[j].end * den),
    ensures
        rung_at(ladder, num, den) == Some(ladder[i]),
    decreases i,
{
    if i > 0 {
        assert(!ladder[0].holds(num, den));
        let rest = ladder.drop_first();
        assert forall|j: int| 0 <= j < i - 1 implies !((#[trigger] rest[j]).start * den <= num
            < rest[j].end * den) by {
            assert(rest[j] == ladder[j + 1]);
        }
        law_a_price_is_on_the_first_rung_that_holds_it(rest, num, den, i - 1);
    }
}

/// A price that no rung holds has no tick above it.
pub proof fn law_a_price_off_the_ladder_has_no_tick(ladder: Seq<Rung>, num: int, den: int)
    requires
        forall|j: int|
            0 <= j < ladder.len() ==> !((#[trigger] ladder[j]).start * den <= num < ladder[j].end
                * den),
    ensures
        rung_at(ladder, num, den) is None,
        tick_ceil(ladder, num, den) is None,
    decreases ladder.len(),
{
    if ladder.len() > 0 {
        assert(!ladder[0].holds(num, den));
        let rest = ladder.drop_first();
        assert forall|j: int| 0 <= j < rest.len() implies !((#[trigger] rest[j]).start * den <= num
            < rest[j].end * den) by {
            assert(rest[j] == ladder[j + 1]);
        }
        law_a_price_off_the_ladder_has_no_tick(rest, num, den);
    }
}

/// The tick above a price is the lowest one of its rung that is not below it: a
/// whole number of steps from the rung's start, and less than a step too high.
pub proof fn law_a_tick_is_the_lowest_of_its_rung(
    ladder: Seq<Rung>,
    num: int,
    den: int,
    i: int,
) -> (k: int)
    requires
        ladder_ok(ladder),
        den > 0,
        0 <= i < ladder.len(),
        ladder[i].start * den <= num < ladder[i].end * den,
        forall|j: int|
            0 <= j < i ==> !((#[trigger] ladder[j]).start * den <= num < ladder[j].end * den),
    ensures
        k >= 0,
        tick_ceil(ladder, num, den) matches Some(p) && p == ladder[i].start + k * ladder[i].step
            && num <= p * den && (p - ladder[i].step) * den < num,
{
    law_a_price_is_on_the_first_rung_that_holds_it(ladder, num, den, i);
    law_tick_ceil_is_tight(ladder, num, den);
    let r = ladder[i];
    let (a, b) = (num - r.start * den, r.step * den);
    let step = r.step as int;
    assert(b > 0) by (nonlinear_arith)
        requires
            b == step * den,
            step > 0,
            den > 0,
    ;
    lemma_ceil_div(a, b);
    let k = ceil_div(a, b);
    assert(k >= 0) by (nonlinear_arith)
        requires
            k * b >= a,
            a >= 0,
            b > 0,
    ;
    k
}

/// A ladder is priced on as it stands where every rung has a step and stays within
/// a hundred dollars either way; one with a rung that does not holds no price.
pub proof fn law_a_malformed_ladder_holds_no_price(ladder: Seq<Rung>, i: int)
    requires
        0 <= i < ladder.len(),
    ensures
        ladder[i].step <= 0 ==> legal(ladder).len() == 0,
        ladder[i].start < -100_000_000 || ladder[i].start > 100_000_000 ==> legal(ladder).len()
            == 0,
        ladder[i].end < -100_000_000 || ladder[i].end + ladder[i].step > 100_000_000 ==> legal(
            ladder,
        ).len() == 0,
        (forall|j: int|
            0 <= j < ladder.len() ==> (#[trigger] ladder[j]).step > 0 && -100_000_000
                <= ladder[j].start <= 100_000_000 && -100_000_000 <= ladder[j].end
                && ladder[j].end + ladder[j].step <= 100_000_000) ==> legal(ladder) == ladder,
{
    if ladder_ok(ladder) {
        assert(ladder[i].wf());
    }
}

} // verus!
