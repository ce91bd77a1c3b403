//! The stand-off: the Kalshi markets that the exit pass is working, so that no
//! other owner in the process sends a taker order across its own resting ask.
use crate::board::{elapsed, elapsed_ns, seconds, seconds_text};
use crate::text::{is_listed, listed, numeral};
use vstd::prelude::*;
use vstd::string::StringExecFns;

verus! {

/// How stale a published set may be and still answer, in nanoseconds: three
/// cycles of its publisher.
pub const WORKING_MAX_AGE_NS: u64 = 180_000_000_000;

/// What is being worked, and whether anybody is stood off at all.
pub struct StandOff {
    pub armed: bool,
    pub markets: Option<Vec<String>>,
    /// When the set was published, in nanoseconds.
    pub at: u64,
}

/// Why a taker order may not be sent on a market.
#[derive(Clone, Copy, Debug, PartialEq, Eq, Structural)]
pub enum StandOffRefusal {
    NotPublished,
    Stale { age_ns: u64 },
    Working,
}

impl StandOffRefusal {
    pub open spec fn message(self, market: &str) -> Seq<char> {
        match self {
            StandOffRefusal::NotPublished => "the maker exit is ARMED and has not yet published what it is working — until it does, a taker order here may cross an `x` ask of ours and be cancelled by taker_at_cross while reporting only that the book moved. It publishes on its own cycle, so this clears itself; if it does not, the exit loop is not running."@,
            StandOffRefusal::Stale { age_ns } => "the maker exit's working set is "@
                + numeral(seconds(age_ns as int))
                + "s old (it publishes every 60s) — the exit loop is not running, so nothing here can tell whether an `x` ask of ours is resting on "@
                + market@
                + ", and taker_at_cross would answer this order by cancelling it rather than filling it"@,
            StandOffRefusal::Working => "a maker exit is working "@
                + market@
                + " — a post-only ask of ours is resting there or is about to be, and `self_trade_prevention_type: taker_at_cross` answers a taker that crosses it by CANCELLING THE TAKER, which is this order. It would come back unfilled and be reported as the book having moved. The market is released on the first cycle after the exit fills, is pulled, or halts on an unresolved leg"@,
        }
    }

    /// The refusal in words.
    pub fn text(&self, market: &str) -> (r: String)
        ensures
            r@ == self.message(market),
    {
        match self {
            StandOffRefusal::NotPublished => "the maker exit is ARMED and has not yet published what it is working — until it does, a taker order here may cross an `x` ask of ours and be cancelled by taker_at_cross while reporting only that the book moved. It publishes on its own cycle, so this clears itself; if it does not, the exit loop is not running.".to_owned(),
            StandOffRefusal::Stale { age_ns } => {
                let mut s: String = "the maker exit's working set is ".to_owned();
                s.append(seconds_text(*age_ns).as_str());
                s.append("s old (it publishes every 60s) — the exit loop is not running, so nothing here can tell whether an `x` ask of ours is resting on ");
                s.append(market);
                s.append(", and taker_at_cross would answer this order by cancelling it rather than filling it");
                s
            },
            StandOffRefusal::Working => {
                let mut s: String = "a maker exit is working ".to_owned();
                s.append(market);
                s.append(" — a post-only ask of ours is resting there or is about to be, and `self_trade_prevention_type: taker_at_cross` answers a taker that crosses it by CANCELLING THE TAKER, which is this order. It would come back unfilled and be reported as the book having moved. The market is released on the first cycle after the exit fills, is pulled, or halts on an unresolved leg");
                s
            },
        }
    }
}

impl StandOff {
    pub fn new() -> (r: StandOff)
        ensures
            !r.armed,
            r.markets is None,
    {
        StandOff { armed: false, markets: None, at: 0 }
    }
}

/// Stands the other order owners off the markets that are worked.
pub fn arm_standoff(s: &mut StandOff)
    ensures
        final(s).armed,
        final(s).markets == old(s).markets,
        final(s).at == old(s).at,
{
    s.armed = true;
}

/// Publishes what is being worked, in place of the last set.
pub fn publish_working(s: &mut StandOff, markets: Vec<String>, now: u64)
    ensures
        final(s).markets == Some(markets),
        final(s).at == now,
        final(s).armed == old(s).armed,
{
    s.markets = Some(markets);
    s.at = now;
}

/// Why a taker order may not be sent on `market`, if it may not.
pub open spec fn stood_off(s: StandOff, market: Seq<char>, now: u64) -> Option<StandOffRefusal> {
    if !s.armed {
        None
    } else {
        match s.markets {
            None => Some(StandOffRefusal::NotPublished),
            Some(m) => if elapsed(s.at, now) > WORKING_MAX_AGE_NS {
                Some(StandOffRefusal::Stale { age_ns: elapsed(s.at, now) as u64 })
            } else if listed(m@, market) {
                Some(StandOffRefusal::Working)
            } else {
                None
            },
        }
    }
}

/// May another order owner in this process send a taker order on `market`?
/// Open while nothing is armed; closed on everything else that cannot answer.
pub fn working_check(s: &StandOff, market: &str, now: u64) -> (r: Result<(), StandOffRefusal>)
    ensures
        r == (match stood_off(*s, market@, now) {
            Some(e) => Err(e),
            None => Ok(()),
        }),
{
    if !s.armed {
        return Ok(());
    }
    match &s.markets {
        None => Err(StandOffRefusal::NotPublished),
        Some(m) => {
            let age: u64 = elapsed_ns(s.at, now);
            if age > WORKING_MAX_AGE_NS {
                Err(StandOffRefusal::Stale { age_ns: age })
            } else if is_listed(m, market) {
                Err(StandOffRefusal::Working)
            } else {
                Ok(())
            }
        },
    }
}

/// With nothing armed nobody is stood off. Once armed, an order is let through
/// only by a fresh set that does not hold its market.
pub proof fn law_the_stand_off_fails_closed_once_armed(s: StandOff, market: Seq<char>, now: u64)
    ensures
        !s.armed ==> stood_off(s, market, now) is None,
        s.armed ==> (stood_off(s, market, now) is None <==> (s.markets matches Some(m) && elapsed(
            s.at,
            now,
        ) <= WORKING_MAX_AGE_NS && !listed(m@, market))),
{
}

} // verus!
