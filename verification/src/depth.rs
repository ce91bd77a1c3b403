//! How many contracts the book of a closing leg holds, and what is left of them
//! once other exits have claimed theirs.
use crate::assoc::{find, lookup};
use crate::batch::claimed;
use crate::board::EngineView;
use crate::lot::{close_depth_key, depth_key};
use crate::order::Order;
use vstd::prelude::*;

verus! {

/// The contracts of a ladder that nobody has claimed, where its depth is known.
pub open spec fn left(view: EngineView, claims: Seq<(String, i64)>, ladder: Seq<char>) -> Option<
    int,
> {
    match lookup(view.depth@, ladder) {
        Some(d) => Some(d - claimed(claims, ladder)),
        None => None,
    }
}

/// As much of a quantity as is left.
pub open spec fn fitted(qty: i64, left: Option<int>) -> i64 {
    match left {
        Some(n) => if n >= qty {
            qty
        } else if n > 0 {
            n as i64
        } else {
            0
        },
        None => qty,
    }
}

/// As much of a quantity as is left of a ladder.
pub fn fit(qty: i64, view: &EngineView, claims: &Vec<(String, i64)>, ladder: &str) -> (r: i64)
    requires
        qty >= 1,
    ensures
        r == fitted(qty, left(*view, claims@, ladder@)),
        0 <= r <= qty,
{
    let there: i64 = match find(&view.depth, ladder) {
        Some(d) => *d,
        None => {
            return qty;
        },
    };
    let taken: i64 = match find(claims, ladder) {
        Some(n) => *n,
        None => 0,
    };
    let n: i128 = there as i128 - taken as i128;
    if n >= qty as i128 {
        qty
    } else if n > 0 {
        n as i64
    } else {
        0
    }
}

/// The depth of the ladder that an exit closes on, where it is known and does
/// not back the whole quantity.
pub open spec fn short_of(o: Order, view: EngineView) -> Option<i64> {
    match lookup(view.depth@, depth_key(o.direction, o.shape, o.closes_on()@)) {
        Some(d) if d < o.qty => Some(d),
        _ => None,
    }
}

/// The depth of the ladder that an exit closes on, where it falls short.
pub fn find_short(o: &Order, view: &EngineView) -> (r: Option<i64>)
    ensures
        r == short_of(*o, *view),
{
    let ladder: String = close_depth_key(
        o.direction,
        o.shape,
        o.market.as_str(),
        o.pm_market.as_str(),
    );
    match find(&view.depth, ladder.as_str()) {
        Some(d) => if *d < o.qty {
            Some(*d)
        } else {
            None
        },
        None => None,
    }
}

/// Exits that fit what is left of a ladder one after the other never claim more
/// of it than it holds.
pub proof fn law_fitted_claims_stay_within_the_depth(
    view: EngineView,
    claims: Seq<(String, i64)>,
    ladder: Seq<char>,
    qty: i64,
)
    requires
        qty >= 1,
        lookup(view.depth@, ladder) is Some,
        claimed(claims, ladder) <= lookup(view.depth@, ladder)->0,
    ensures
        claimed(claims, ladder) + fitted(qty, left(view, claims, ladder)) <= lookup(
            view.depth@,
            ladder,
        )->0,
{
}

} // verus!
