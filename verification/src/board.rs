//! What the engine publishes for the exit pass, and what the exit pass asks of
//! the engine.
use crate::ladder::Rung;
use crate::money::nearest;
use crate::text::{numeral, number};
use vstd::prelude::*;
use vstd::string::StringExecFns;

verus! {

/// How stale the engine's view may be, in nanoseconds: three of its ticks.
pub const VIEW_MAX_AGE_NS: u64 = 180_000_000_000;

/// A market and a side of its book, spelled as on the wire.
pub type MarketSide = (String, String);

/// What the engine knows and the exit pass cannot derive. Touches stand as
/// they were quoted, under their market.
pub struct EngineView {
    /// The hurdle in force, in millionths of a percent a year.
    pub apr_bar: i64,
    /// The capital cap that it was derived from, in millionths of a dollar.
    pub global_cap_usd: i64,
    /// The best PM-US asks.
    pub pm_ask: Vec<(String, String)>,
    /// The best PM-US bids.
    pub pm_bid: Vec<(String, String)>,
    /// The best Kalshi bids.
    pub k_bid: Vec<(String, String)>,
    /// The best Kalshi asks.
    pub k_ask: Vec<(String, String)>,
    /// The tick ladders of the Kalshi markets.
    pub k_ladder: Vec<(String, Vec<Rung>)>,
    /// The contracts on the ladders that a close trades against, under the name
    /// of each; one whose depth is not known is absent.
    pub depth: Vec<(String, i64)>,
    /// The sides that the entry quoters were told to yield, and when, in
    /// nanoseconds.
    pub suppressed_at: Vec<(MarketSide, u64)>,
}

/// The engine's published view and the outstanding request to it.
pub struct Board {
    pub view: Option<EngineView>,
    /// When the view was published, in nanoseconds.
    pub at: u64,
    pub suppress: Option<Vec<MarketSide>>,
}

/// Why the engine's view may not be believed.
#[derive(Clone, Copy, Debug, PartialEq, Eq, Structural)]
pub enum ViewRefusal {
    NeverPublished,
    Stale { age_ns: u64 },
}

/// The time from `at` to `now`, and nothing where `now` is earlier.
pub open spec fn elapsed(at: u64, now: u64) -> int {
    if now >= at {
        now - at
    } else {
        0
    }
}

/// The time from `at` to `now`.
pub fn elapsed_ns(at: u64, now: u64) -> (r: u64)
    ensures
        r == elapsed(at, now),
{
    if now >= at {
        now - at
    } else {
        0
    }
}

impl Board {
    pub fn new() -> (r: Board)
        ensures
            r.view is None,
            r.suppress is None,
    {
        Board { view: None, at: 0, suppress: None }
    }
}

/// Publishes the engine's view in place of the last one.
pub fn publish_view(b: &mut Board, view: EngineView, now: u64)
    ensures
        final(b).view == Some(view),
        final(b).at == now,
        final(b).suppress == old(b).suppress,
{
    b.view = Some(view);
    b.at = now;
}

/// Whether the view may be believed, and if not, why.
pub open spec fn view_refusal(b: Board, now: u64) -> Option<ViewRefusal> {
    if b.view is None {
        Some(ViewRefusal::NeverPublished)
    } else if elapsed(b.at, now) > VIEW_MAX_AGE_NS {
        Some(ViewRefusal::Stale { age_ns: elapsed(b.at, now) as u64 })
    } else {
        None
    }
}

/// The engine's view, or why it may not be believed.
pub fn engine_view(b: &Board, now: u64) -> (r: Result<&EngineView, ViewRefusal>)
    ensures
        r matches Ok(v) ==> view_refusal(*b, now) is None && b.view == Some(*v),
        r matches Err(e) ==> view_refusal(*b, now) == Some(e),
{
    match &b.view {
        None => Err(ViewRefusal::NeverPublished),
        Some(v) => {
            let age: u64 = elapsed_ns(b.at, now);
            if age > VIEW_MAX_AGE_NS {
                Err(ViewRefusal::Stale { age_ns: age })
            } else {
                Ok(v)
            }
        },
    }
}

/// Asks the entry quoters to yield these sides, in place of the last request.
pub fn request_suppress(b: &mut Board, markets: Vec<MarketSide>)
    ensures
        final(b).suppress == Some(markets),
        final(b).view == old(b).view,
        final(b).at == old(b).at,
{
    b.suppress = Some(markets);
}

/// The sides asked for.
pub open spec fn asked(b: Board) -> Seq<MarketSide> {
    match b.suppress {
        Some(v) => v@,
        None => Seq::empty(),
    }
}

/// A copy of a list of sides.
pub fn copy_sides(v: &Vec<MarketSide>) -> (r: Vec<MarketSide>)
    ensures
        r@ == v@,
{
    let mut out: Vec<MarketSide> = Vec::new();
    let mut i: usize = 0;
    while i < v.len()
        invariant
            i <= v.len(),
            out@ == v@.take(i as int),
        decreases v.len() - i,
    {
        out.push((v[i].0.clone(), v[i].1.clone()));
        assert(out@ =~= v@.take(i + 1));
        i = i + 1;
    }
    assert(v@.take(v@.len() as int) =~= v@);
    out
}

/// The outstanding request; nothing before the first one.
pub fn suppress_requests(b: &Board) -> (r: Vec<MarketSide>)
    ensures
        r@ == asked(*b),
{
    match &b.suppress {
        Some(v) => copy_sides(v),
        None => Vec::new(),
    }
}

/// Nanoseconds as whole seconds, ties to even.
pub open spec fn seconds(ns: int) -> nat {
    nearest(ns, 1_000_000_000) as nat
}

/// Nanoseconds as a numeral of whole seconds.
pub fn seconds_text(ns: u64) -> (r: String)
    ensures
        r@ == numeral(seconds(ns as int)),
{
    let n: i128 = crate::money::nearest_quotient(ns as i128, 1_000_000_000);
    proof {
        crate::money::lemma_nearest(ns as int, 1_000_000_000);
    }
    number(n as u64)
}

pub const NEVER_PUBLISHED: &'static str =
    "the engine has never published its hurdle, cap and PM-US book — there is no number here to decide an exit against, and one will not be invented";

pub const VIEW_IS: &'static str = "the engine's view is ";

pub const VIEW_OLD: &'static str =
    "s old (it publishes on the 60s tick, and stops publishing when killed or feed-pulled) — the hurdle, the cap and the PM-US book are all unknown";

impl ViewRefusal {
    pub open spec fn message(self) -> Seq<char> {
        match self {
            ViewRefusal::NeverPublished => NEVER_PUBLISHED@,
            ViewRefusal::Stale { age_ns } => VIEW_IS@ + numeral(seconds(age_ns as int))
                + VIEW_OLD@,
        }
    }

    /// The refusal in words.
    pub fn text(&self) -> (r: String)
        ensures
            r@ == self.message(),
    {
        match self {
            ViewRefusal::NeverPublished => NEVER_PUBLISHED.to_owned(),
            ViewRefusal::Stale { age_ns } => {
                let mut s: String = VIEW_IS.to_owned();
                s.append(seconds_text(*age_ns).as_str());
                s.append(VIEW_OLD);
                s
            },
        }
    }
}

/// A view is believed for three ticks after it was published and no longer,
/// and none is believed that was never published.
pub proof fn law_a_silent_engine_decides_nothing(b: Board, now: u64)
    ensures
        b.view is None ==> view_refusal(b, now) is Some,
        b.view is Some && now >= b.at ==> (view_refusal(b, now) is None <==> now - b.at
            <= VIEW_MAX_AGE_NS),
{
}

} // verus!
