//! The tick ladder of a market: rungs of prices, each with its own step.
use crate::decimal::{total, Ratio};
use crate::money::{ceil_div, ceil_quotient, lemma_ceil_div, lemma_floor_div, Px, CENT, ONE, PX_MAX};
use crate::ratio::{clamped, dollars, less_by, scaled};
use vstd::prelude::*;

verus! {

/// The prices from `start` up to `end` in steps of `step`.
#[derive(Clone, Copy, Debug, PartialEq, Eq, Structural)]
pub struct Rung {
    pub start: Px,
    pub end: Px,
    pub step: Px,
}

impl Rung {
    /// A rung that has a step and stays within range.
    pub open spec fn wf(self) -> bool {
        &&& -PX_MAX <= self.start
        &&& self.start <= PX_MAX
        &&& 0 < self.step
        &&& -PX_MAX <= self.end
        &&& self.end + self.step <= PX_MAX
    }

    /// Whether the price `num / den` lies on this rung.
    pub open spec fn holds(self, num: int, den: int) -> bool {
        self.start * den <= num < self.end * den
    }
}

/// A ladder whose rungs are well formed.
pub open spec fn ladder_ok(ladder: Seq<Rung>) -> bool {
    forall|i: int| 0 <= i < ladder.len() ==> (#[trigger] ladder[i]).wf()
}

/// The ladder that is priced on: one that is malformed holds no price.
pub open spec fn legal(ladder: Seq<Rung>) -> Seq<Rung> {
    if ladder_ok(ladder) {
        ladder
    } else {
        Seq::empty()
    }
}

/// Keeps a ladder whose every rung has a step and stays within range, and none of
/// one that is malformed.
pub fn legal_ladder(ladder: &Vec<Rung>) -> (r: Vec<Rung>)
    ensures
        r@ == legal(ladder@),
        ladder_ok(r@),
{
    let mut out: Vec<Rung> = Vec::new();
    let mut i: usize = 0;
    while i < ladder.len()
        invariant
            i <= ladder.len(),
            out@ == ladder@.take(i as int),
            forall|j: int| 0 <= j < i ==> (#[trigger] ladder@[j]).wf(),
        decreases ladder.len() - i,
    {
        let g: Rung = ladder[i];
        if g.start < -PX_MAX || g.start > PX_MAX || g.step <= 0 || g.step > 2 * PX_MAX || g.end
            < -PX_MAX || g.end > PX_MAX - g.step {
            assert(!ladder@[i as int].wf());
            return Vec::new();
        }
        out.push(g);
        assert(out@ =~= ladder@.take(i + 1));
        i = i + 1;
    }
    assert(ladder@.take(ladder@.len() as int) =~= ladder@);
    out
}

/// The first rung that holds the price `num / den`.
pub open spec fn rung_at(ladder: Seq<Rung>, num: int, den: int) -> Option<Rung>
    decreases ladder.len(),
{
    if ladder.len() == 0 {
        None
    } else if ladder[0].holds(num, den) {
        Some(ladder[0])
    } else {
        rung_at(ladder.drop_first(), num, den)
    }
}

/// The lowest price of a rung at or above `num / den`.
pub open spec fn rung_ceil(r: Rung, num: int, den: int) -> int {
    r.start + ceil_div(num - r.start * den, r.step * den) * r.step
}

/// The lowest legal price at or above `num / den`, on the rung that holds it;
/// `None` for a price off the ladder.
pub open spec fn tick_ceil(ladder: Seq<Rung>, num: int, den: int) -> Option<Px> {
    match rung_at(ladder, num, den) {
        Some(r) => Some(rung_ceil(r, num, den) as i64),
        None => None,
    }
}

/// The largest denominator that the search takes.
pub const DEN_MAX: i128 = 10_000_000_000_000_000_000;

/// The largest numerator that the search takes.
pub const NUM_MAX: i128 = 100_000_000_000_000_000_000_000_000_000_000_000;

proof fn lemma_rung_ceil(r: Rung, num: int, den: int)
    requires
        r.wf(),
        r.holds(num, den),
        den > 0,
    ensures
        rung_ceil(r, num, den) * den >= num,
        rung_ceil(r, num, den) >= r.start,
        (rung_ceil(r, num, den) - r.step) * den < num,
        rung_ceil(r, num, den) < r.end + r.step,
{
    let a = num - r.start * den;
    let b = r.step * den;
    let step = r.step as int;
    let start = r.start as int;
    let end = r.end as int;
    assert(b > 0) by (nonlinear_arith)
        requires
            b == step * den,
            step > 0,
            den > 0,
    ;
    lemma_ceil_div(a, b);
    let q = ceil_div(a, b);
    let p = start + q * step;
    assert(p * den == start * den + q * b) by (nonlinear_arith)
        requires
            p == start + q * step,
            b == step * den,
    ;
    assert((p - step) * den == start * den + (q - 1) * b) by (nonlinear_arith)
        requires
            p == start + q * step,
            b == step * den,
    ;
    assert(q >= 0) by (nonlinear_arith)
        requires
            q * b >= a,
            a >= 0,
            b > 0,
    ;
    assert(q * step >= 0) by (nonlinear_arith)
        requires
            q >= 0,
            step > 0,
    ;
    assert(p - step < end) by (nonlinear_arith)
        requires
            (p - step) * den < end * den,
            den > 0,
    ;
}

/// The rung that is found is well formed and holds the price.
pub proof fn lemma_rung_at(ladder: Seq<Rung>, num: int, den: int)
    requires
        ladder_ok(ladder),
    ensures
        rung_at(ladder, num, den) matches Some(r) ==> r.wf() && r.holds(num, den),
    decreases ladder.len(),
{
    if ladder.len() > 0 && !ladder[0].holds(num, den) {
        assert forall|i: int| 0 <= i < ladder.drop_first().len() implies (
        #[trigger] ladder.drop_first()[i]).wf() by {
            assert(ladder.drop_first()[i] == ladder[i + 1]);
        }
        lemma_rung_at(ladder.drop_first(), num, den);
    }
}

/// A price that the ladder gives for `num / den` is at or above it, by less
/// than a step of the rung that holds it, and within range.
pub proof fn law_tick_ceil_is_tight(ladder: Seq<Rung>, num: int, den: int)
    requires
        ladder_ok(ladder),
        den > 0,
    ensures
        tick_ceil(ladder, num, den) is Some <==> rung_at(ladder, num, den) is Some,
        tick_ceil(ladder, num, den) matches Some(p) ==> {
            let r = rung_at(ladder, num, den)->0;
            &&& p == rung_ceil(r, num, den)
            &&& p * den >= num
            &&& (p - r.step) * den < num
            &&& -PX_MAX <= p <= PX_MAX
            &&& r.start <= p
        },
{
    lemma_rung_at(ladder, num, den);
    if let Some(r) = rung_at(ladder, num, den) {
        lemma_rung_ceil(r, num, den);
    }
}

proof fn lemma_rung_at_skip(ladder: Seq<Rung>, num: int, den: int, k: int)
    requires
        0 <= k <= ladder.len(),
        forall|i: int| 0 <= i < k ==> !(#[trigger] ladder[i]).holds(num, den),
    ensures
        rung_at(ladder, num, den) == rung_at(ladder.skip(k), num, den),
    decreases k,
{
    if k == 0 {
        assert(ladder.skip(0) =~= ladder);
    } else {
        assert(!ladder[0].holds(num, den));
        let rest = ladder.drop_first();
        assert forall|i: int| 0 <= i < k - 1 implies !(#[trigger] rest[i]).holds(num, den) by {
            assert(rest[i] == ladder[i + 1]);
        }
        lemma_rung_at_skip(rest, num, den, k - 1);
        assert(rest.skip(k - 1) =~= ladder.skip(k));
    }
}

/// Finds the first rung that holds the price `num / den`.
pub fn find_rung(ladder: &Vec<Rung>, num: i128, den: i128) -> (r: Option<Rung>)
    requires
        ladder_ok(ladder@),
        0 < den <= DEN_MAX,
        -NUM_MAX <= num <= NUM_MAX,
    ensures
        r == rung_at(ladder@, num as int, den as int),
        r matches Some(g) ==> g.wf() && g.holds(num as int, den as int),
{
    let mut i: usize = 0;
    while i < ladder.len()
        invariant
            i <= ladder.len(),
            ladder_ok(ladder@),
            0 < den <= DEN_MAX,
            -NUM_MAX <= num <= NUM_MAX,
            forall|j: int|
                0 <= j < i ==> !(#[trigger] ladder@[j]).holds(num as int, den as int),
        decreases ladder.len() - i,
    {
        let g: Rung = ladder[i];
        proof {
            let d = den as int;
            let s = g.start as int;
            let e = g.end as int;
            assert(-1_000_000_000_000_000_000_000_000_000 <= s * d
                <= 1_000_000_000_000_000_000_000_000_000) by (nonlinear_arith)
                requires
                    -100_000_000 <= s <= 100_000_000,
                    0 < d <= 10_000_000_000_000_000_000,
            ;
            assert(-1_000_000_000_000_000_000_000_000_000 <= e * d
                <= 1_000_000_000_000_000_000_000_000_000) by (nonlinear_arith)
                requires
                    -100_000_000 <= e <= 100_000_000,
                    0 < d <= 10_000_000_000_000_000_000,
            ;
        }
        if (g.start as i128) * den <= num && num < (g.end as i128) * den {
            proof {
                lemma_rung_at_skip(ladder@, num as int, den as int, i as int);
                assert(ladder@.skip(i as int)[0] == g);
            }
            return Some(g);
        }
        i = i + 1;
    }
    proof {
        lemma_rung_at_skip(ladder@, num as int, den as int, i as int);
    }
    None
}

/// The lowest legal price at or above `num / den`.
pub fn ceil_to_tick(ladder: &Vec<Rung>, num: i128, den: i128) -> (r: Option<Px>)
    requires
        ladder_ok(ladder@),
        0 < den <= DEN_MAX,
        -NUM_MAX <= num <= NUM_MAX,
    ensures
        r == tick_ceil(ladder@, num as int, den as int),
        r matches Some(p) ==> -PX_MAX <= p <= PX_MAX && p * den >= num,
{
    match find_rung(ladder, num, den) {
        None => None,
        Some(g) => {
            proof {
                lemma_rung_ceil(g, num as int, den as int);
                let d = den as int;
                let s = g.start as int;
                let t = g.step as int;
                assert(-1_000_000_000_000_000_000_000_000_000 <= s * d
                    <= 1_000_000_000_000_000_000_000_000_000) by (nonlinear_arith)
                    requires
                        -100_000_000 <= s <= 100_000_000,
                        0 < d <= 10_000_000_000_000_000_000,
                ;
                assert(0 < t * d <= 10_000_000_000_000_000_000_000_000_000) by (nonlinear_arith)
                    requires
                        0 < t <= 200_000_000,
                        0 < d <= 10_000_000_000_000_000_000,
                ;
            }
            let q: i128 = ceil_quotient(num - (g.start as i128) * den, (g.step as i128) * den);
            proof {
                let x = q as int * g.step as int;
                assert(x == rung_ceil(g, num as int, den as int) - g.start);
            }
            Some((g.start as i128 + q * (g.step as i128)) as i64)
        },
    }
}

proof fn lemma_rung_floor(ladder: Seq<Rung>, num: int, den: int)
    requires
        ladder_ok(ladder),
        den > 0,
    ensures
        rung_at(ladder, num, den) == rung_at(ladder, clamped(num / den), 1),
    decreases ladder.len(),
{
    if ladder.len() > 0 {
        let r = ladder[0];
        assert(r.wf());
        let q = num / den;
        lemma_floor_div(num, den);
        let (s, e) = (r.start as int, r.end as int);
        assert((s * den <= num) == (s <= q)) by (nonlinear_arith)
            requires
                q * den <= num,
                num < (q + 1) * den,
                den > 0,
        ;
        assert((num < e * den) == (q < e)) by (nonlinear_arith)
            requires
                q * den <= num,
                num < (q + 1) * den,
                den > 0,
        ;
        assert(r.holds(num, den) == r.holds(clamped(q), 1));
        assert forall|i: int| 0 <= i < ladder.drop_first().len() implies (
        #[trigger] ladder.drop_first()[i]).wf() by {
            assert(ladder.drop_first()[i] == ladder[i + 1]);
        }
        lemma_rung_floor(ladder.drop_first(), num, den);
    }
}

proof fn lemma_rung_ceil_whole(r: Rung, num: int, den: int)
    requires
        r.wf(),
        r.holds(num, den),
        den > 0,
    ensures
        rung_ceil(r, num, den) == rung_ceil(r, clamped(ceil_div(num, den)), 1),
        -PX_MAX <= ceil_div(num, den) <= PX_MAX,
{
    let (s, e, t) = (r.start as int, r.end as int, r.step as int);
    let c = ceil_div(num, den);
    lemma_ceil_div(num, den);
    assert(s <= c <= e) by (nonlinear_arith)
        requires
            c * den >= num,
            (c - 1) * den < num,
            s * den <= num,
            num < e * den,
            den > 0,
    ;
    let b = t * den;
    assert(b > 0) by (nonlinear_arith)
        requires
            b == t * den,
            t > 0,
            den > 0,
    ;
    let a = num - s * den;
    lemma_ceil_div(a, b);
    lemma_ceil_div(c - s, t);
    let (x, y) = (ceil_div(a, b), ceil_div(c - s, t));
    // The steps to the price above a fraction are those to the whole number above it.
    assert(x == y) by (nonlinear_arith)
        requires
            x * b >= a,
            (x - 1) * b < a,
            y * t >= c - s,
            (y - 1) * t < c - s,
            b == t * den,
            a == num - s * den,
            c * den >= num,
            (c - 1) * den < num,
            den > 0,
            t > 0,
    ;
    assert(ceil_div(c - s * 1, t * 1) == y);
}

/// The step of the rung on which a price lies, of its fraction in millionths.
pub open spec fn step_near(ladder: Seq<Rung>, x: (int, int)) -> Option<Px> {
    match rung_at(ladder, x.0, x.1) {
        Some(r) => Some(r.step),
        None => None,
    }
}

/// The step of the rung on which a price lies; `None` off the ladder.
pub fn step_of(ladder: &Vec<Rung>, x: &Ratio) -> (r: Option<Px>)
    requires
        ladder_ok(ladder@),
        x.wf(),
    ensures
        r == step_near(ladder@, x.at()),
        r matches Some(s) ==> 0 < s <= 2 * PX_MAX,
{
    proof {
        lemma_rung_floor(ladder@, x.at().0, x.at().1);
    }
    match find_rung(ladder, x.down() as i128, 1) {
        Some(g) => Some(g.step),
        None => None,
    }
}

/// The lowest legal price at or above a fraction in millionths.
pub fn tick_above(ladder: &Vec<Rung>, x: &Ratio) -> (r: Option<Px>)
    requires
        ladder_ok(ladder@),
        x.wf(),
    ensures
        r == tick_ceil(ladder@, x.at().0, x.at().1),
        r matches Some(p) ==> -PX_MAX <= p <= PX_MAX && p * x.at().1 >= x.at().0,
{
    proof {
        lemma_rung_floor(ladder@, x.at().0, x.at().1);
        law_tick_ceil_is_tight(ladder@, x.at().0, x.at().1);
        lemma_rung_at(ladder@, x.at().0, x.at().1);
    }
    match find_rung(ladder, x.down() as i128, 1) {
        None => None,
        Some(g) => {
            proof {
                lemma_rung_ceil_whole(g, x.at().0, x.at().1);
                lemma_rung_ceil(g, x.at().0, x.at().1);
            }
            let q: i128 = ceil_quotient(x.up() as i128 - g.start as i128, g.step as i128);
            proof {
                let y = q as int * g.step as int;
                assert(y == rung_ceil(g, x.at().0, x.at().1) - g.start);
            }
            Some((g.start as i128 + q * (g.step as i128)) as i64)
        },
    }
}

/// The step of the rung on which `x` lies.
pub open spec fn step_at(ladder: Seq<Rung>, x: Px) -> Option<Px> {
    match rung_at(ladder, x as int, 1) {
        Some(r) => Some(r.step),
        None => None,
    }
}

/// The step of the rung on which `x` lies; `None` off the ladder.
pub fn rung_step(ladder: &Vec<Rung>, x: Px) -> (r: Option<Px>)
    requires
        ladder_ok(ladder@),
    ensures
        r == step_at(ladder@, x),
        r matches Some(s) ==> 0 < s <= 2 * PX_MAX && -PX_MAX <= x <= PX_MAX,
{
    match find_rung(ladder, x as i128, 1) {
        Some(g) => Some(g.step),
        None => None,
    }
}

/// The ladder of whole cents from nothing up to a dollar.
pub open spec fn pennies() -> Seq<Rung> {
    seq![Rung { start: 0, end: ONE, step: CENT }]
}

/// The penny ladder.
pub fn penny_ladder() -> (r: Vec<Rung>)
    ensures
        r@ == pennies(),
        ladder_ok(r@),
{
    let mut v: Vec<Rung> = Vec::new();
    v.push(Rung { start: 0, end: ONE, step: CENT });
    assert(v@ =~= pennies());
    v
}

/// One step of the ladder through a touch, a fraction of a dollar: down where
/// selling, up where buying. A market without a ladder of its own steps by the
/// cent. `None` where the touch is off the ladder.
pub open spec fn step_through(
    ladder: Option<Seq<Rung>>,
    touch: (int, int),
    selling: bool,
) -> Option<(int, int)> {
    let step = match ladder {
        None => Some(CENT),
        Some(l) => step_near(l, scaled(touch, ONE as int)),
    };
    match step {
        None => None,
        Some(s) => Some(
            if selling {
                less_by(touch, dollars(s as int))
            } else {
                total(touch, dollars(s as int))
            },
        ),
    }
}

/// The price one step through the touch.
pub fn kalshi_step(ladder: Option<&Vec<Rung>>, touch: &Ratio, selling: bool) -> (r: Option<Ratio>)
    requires
        ladder matches Some(l) ==> ladder_ok(l@),
        touch.wf(),
    ensures
        step_through(
            match ladder {
                Some(l) => Some(l@),
                None => None,
            },
            touch.at(),
            selling,
        ) == (match r {
            Some(x) => Some(x.at()),
            None => None,
        }),
        r matches Some(x) ==> x.wf(),
{
    let step: Px = match ladder {
        None => CENT,
        Some(l) => match step_of(l, &touch.scaled(ONE as u128)) {
            None => {
                return None;
            },
            Some(s) => s,
        },
    };
    Some(
        if selling {
            touch.less_by(&Ratio::dollars(step))
        } else {
            touch.total(&Ratio::dollars(step))
        },
    )
}

} // verus!
