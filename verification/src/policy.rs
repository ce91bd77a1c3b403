//! What quotes are held to, and what the engine may do in a run.
use crate::args::Args;
use crate::group::texts;
use crate::text::{before, lemma_before_total, lemma_before_transitive, same, sorts_before};
use crate::venue::Side;
use vstd::prelude::*;
use vstd::string::StringExecFns;

verus! {

// -------------------------------------------------------------- the hurdle

/// The hurdle of an idle book, in millionths of a percent a year.
pub const APR_FLOOR: i64 = 4_000_000;

/// The hurdle of a full book, in millionths of a percent a year.
pub const APR_CEIL: i64 = 16_000_000;

/// The hurdle at a utilization of the budget, both in millionths: linear from
/// the floor to the ceiling, and flat outside.
pub open spec fn bar_at(util: int) -> int {
    APR_FLOOR + 12 * (if util < 0 {
        0
    } else if util > 1_000_000 {
        1_000_000
    } else {
        util
    })
}

/// The hurdle at a utilization of the budget.
pub fn apr_bar(util: i64) -> (r: i64)
    ensures
        r == bar_at(util as int),
        APR_FLOOR <= r <= APR_CEIL,
{
    let u: i64 = if util < 0 {
        0
    } else if util > 1_000_000 {
        1_000_000
    } else {
        util
    };
    APR_FLOOR + 12 * u
}

/// The hurdle in force, of the one that was given and of the utilization.
pub open spec fn bar_in_force(min_apr: Option<i64>, util: Option<i64>) -> int {
    match (min_apr, util) {
        (Some(x), _) => x as int,
        (None, Some(u)) => bar_at(u as int),
        (None, None) => 0,
    }
}

/// The hurdle of a run: the one that was given, whatever it is; else the one that
/// floats with the utilization; and none where there is no risk view.
pub fn hurdle(min_apr: Option<i64>, util: Option<i64>) -> (r: i64)
    ensures
        r == bar_in_force(min_apr, util),
        r == (match (min_apr, util) {
            (Some(x), _) => x as int,
            (None, Some(u)) => bar_at(u as int),
            (None, None) => 0,
        }),
{
    match (min_apr, util) {
        (Some(x), _) => x,
        (None, Some(u)) => apr_bar(u),
        (None, None) => 0,
    }
}

/// The places of those relationships, of the first `n`, for which no date is
/// known and so no hurdle is in force.
pub open spec fn undated(bar: i64, dated: Seq<bool>, n: nat) -> Seq<int>
    decreases n,
{
    if n == 0 {
        Seq::empty()
    } else {
        let rest = undated(bar, dated, (n - 1) as nat);
        if !dated[n - 1] && bar > 0 {
            rest.push(n - 1)
        } else {
            rest
        }
    }
}

/// The relationships for which no hurdle is in force, though there is one.
pub fn find_undated(bar: i64, dated: &Vec<bool>) -> (r: Vec<usize>)
    ensures
        crate::gate::ints(r@) == undated(bar, dated@, dated@.len()),
{
    let mut out: Vec<usize> = Vec::new();
    let mut i: usize = 0;
    assert(crate::gate::ints(out@) =~= undated(bar, dated@, 0));
    while i < dated.len()
        invariant
            i <= dated.len(),
            crate::gate::ints(out@) == undated(bar, dated@, i as nat),
        decreases dated.len() - i,
    {
        let ghost was = out@;
        if !dated[i] && bar > 0 {
            out.push(i);
            assert(crate::gate::ints(out@) =~= crate::gate::ints(was).push(i as int));
        }
        i = i + 1;
    }
    out
}

// ------------------------------------------------------------- suppression

/// The text of a market and a side.
pub open spec fn side_text(m: Seq<char>, s: Side) -> Seq<char> {
    m + ":"@ + s.name()
}

/// Whether a list of sides holds one of this text.
pub open spec fn has_side(v: Seq<(String, Side)>, t: Seq<char>) -> bool {
    exists|i: int| 0 <= i < v.len() && side_text((#[trigger] v[i]).0@, v[i].1) == t
}

/// Whether texts go up, none twice.
pub open spec fn ascending(v: Seq<Seq<char>>) -> bool {
    forall|i: int, j: int| 0 <= i < j < v.len() ==> before(#[trigger] v[i], #[trigger] v[j])
}

/// The sides that another owner holds, as they are announced: each once, in
/// order.
pub fn suppressed_names(v: &Vec<(String, Side)>) -> (r: Vec<String>)
    ensures
        ascending(texts(r@)),
        forall|t: Seq<char>| #[trigger] texts(r@).contains(t) <==> has_side(v@, t),
{
    let mut out: Vec<String> = Vec::new();
    let mut n: usize = 0;
    while n < v.len()
        invariant
            n <= v.len(),
            ascending(texts(out@)),
            forall|t: Seq<char>| #[trigger]
                texts(out@).contains(t) <==> has_side(v@.take(n as int), t),
        decreases v.len() - n,
    {
        let mut s: String = v[n].0.clone();
        s.append(":");
        s.append(v[n].1.as_str());
        let ghost key = s@;
        let ghost was = texts(out@);
        let mut k: usize = 0;
        while k < out.len() && sorts_before(out[k].as_str(), s.as_str())
            invariant
                k <= out.len(),
                was == texts(out@),
                s@ == key,
                forall|i: int| 0 <= i < k ==> before(#[trigger] was[i], key),
            decreases out.len() - k,
        {
            k = k + 1;
        }
        let there: bool = k < out.len() && same(out[k].as_str(), s.as_str());
        if !there {
            proof {
                if k < out.len() {
                    lemma_before_total(was[k as int], key);
                }
            }
            out.insert(k, s);
            proof {
                let now = texts(out@);
                assert(now =~= was.insert(k as int, key));
                assert forall|i: int, j: int| 0 <= i < j < now.len() implies before(
                    #[trigger] now[i],
                    #[trigger] now[j],
                ) by {
                    let a = if i < k {
                        i
                    } else {
                        i - 1
                    };
                    let b = if j < k {
                        j
                    } else {
                        j - 1
                    };
                    if i == k {
                        if j - 1 > k {
                            lemma_before_transitive(key, was[k as int], was[j - 1]);
                        }
                    } else if j != k {
                        assert(before(was[a], was[b]));
                    }
                }
            }
        }
        proof {
            let now = texts(out@);
            assert(v@.take(n + 1).drop_last() =~= v@.take(n as int));
            assert forall|t: Seq<char>| #[trigger] now.contains(t) <==> has_side(
                v@.take(n + 1),
                t,
            ) by {
                lemma_has_side_push(v@, n as int, t);
                if there {
                    assert(now == was);
                    assert(was[k as int] == key);
                } else {
                    if was.contains(t) {
                        let i = choose|i: int| 0 <= i < was.len() && was[i] == t;
                        if i < k {
                            assert(now[i] == t);
                        } else {
                            assert(now[i + 1] == t);
                        }
                    }
                    assert(now[k as int] == key);
                    if now.contains(t) && t != key {
                        let i = choose|i: int| 0 <= i < now.len() && now[i] == t;
                        if i < k {
                            assert(was[i] == t);
                        } else {
                            assert(was[i - 1] == t);
                        }
                    }
                }
            }
        }
        n = n + 1;
    }
    assert(v@.take(v@.len() as int) =~= v@);
    out
}

proof fn lemma_has_side_push(v: Seq<(String, Side)>, n: int, t: Seq<char>)
    requires
        0 <= n < v.len(),
    ensures
        has_side(v.take(n + 1), t) <==> (has_side(v.take(n), t) || side_text(v[n].0@, v[n].1)
            == t),
{
    let (a, b) = (v.take(n), v.take(n + 1));
    if has_side(a, t) {
        let i = choose|i: int| 0 <= i < a.len() && side_text((#[trigger] a[i]).0@, a[i].1) == t;
        assert(b[i] == a[i]);
    }
    if side_text(v[n].0@, v[n].1) == t {
        assert(b[n] == v[n]);
    }
    if has_side(b, t) {
        let i = choose|i: int| 0 <= i < b.len() && side_text((#[trigger] b[i]).0@, b[i].1) == t;
        if i < n {
            assert(a[i] == b[i]);
        }
    }
}

// ---------------------------------------------------------------- toxicity

/// The file of the toxicity feed: nothing is withheld unless one is named.
pub fn toxgate_file(toxgate: &Option<String>) -> (r: Option<String>)
    ensures
        r == (match *toxgate {
            Some(p) => if p@.len() > 0 {
                Some(p)
            } else {
                None
            },
            None => None,
        }),
{
    match toxgate {
        Some(p) => if p.as_str().is_empty() {
            None
        } else {
            Some(p.clone())
        },
        None => None,
    }
}

/// Whether the feed may be scored against.
#[derive(Clone, Copy, Debug, PartialEq, Eq, Structural)]
pub enum FeedAge {
    Current,
    /// Its writer is not running.
    Old,
    /// It is stamped in the future, and would never expire.
    Future,
}

/// Whether the feed may be scored against, of the time now, the time that it is
/// stamped with, and how far either way is believed.
pub fn feed_age(now: i64, stamped: i64, max_age: i64, max_skew: i64) -> (r: FeedAge)
    ensures
        r == (if now - stamped > max_age {
            FeedAge::Old
        } else if now - stamped < -max_skew {
            FeedAge::Future
        } else {
            FeedAge::Current
        }),
{
    let age: i128 = now as i128 - stamped as i128;
    if age > max_age as i128 {
        FeedAge::Old
    } else if age < -(max_skew as i128) {
        FeedAge::Future
    } else {
        FeedAge::Current
    }
}

/// How a feed that was read is installed.
#[derive(Clone, Copy, Debug, PartialEq, Eq, Structural)]
pub enum FeedInstall {
    /// It gates the sides that it covers by their scores.
    Scores,
    /// It may not be scored against: every side that it covers is withheld.
    Withholds,
    /// It could not be read, so that nothing is known of what it covers.
    Nothing,
}

/// How a feed that was read is installed. One that is not current is installed
/// all the same, as only it says which sides to withhold.
pub fn feed_install(readable: bool, age: FeedAge) -> (r: FeedInstall)
    ensures
        r == (if !readable {
            FeedInstall::Nothing
        } else if age == FeedAge::Current {
            FeedInstall::Scores
        } else {
            FeedInstall::Withholds
        }),
{
    if !readable {
        FeedInstall::Nothing
    } else {
        match age {
            FeedAge::Current => FeedInstall::Scores,
            _ => FeedInstall::Withholds,
        }
    }
}

// ---------------------------------------------------------------- the run

/// How a hedge is tried again.
#[derive(Debug)]
pub struct HedgeRetry {
    pub interval_s: String,
    pub max_slip: String,
    pub alarm_after_s: String,
}

/// The pass that takes on both venues.
#[derive(Debug)]
pub struct TakeTake {
    pub max_ct_per_rel: i64,
    pub max_clip: i64,
    pub marks_path: String,
    pub detect_only: bool,
    pub cooldown_s: String,
}

/// The pass that reports what it would unwind.
#[derive(Debug)]
pub struct Unwind {
    pub marks_path: String,
    pub owned_prefixes: Vec<String>,
}

/// Where the marks of the book are written, and how often, in seconds.
#[derive(Debug)]
pub struct MarksOut {
    pub out_path: String,
    pub ledger_path: String,
    pub min_interval_s: u64,
    pub max_idle_s: u64,
}

/// What the engine may do in a run.
#[derive(Debug)]
pub struct RunCfg {
    pub hedges_undischarged: u64,
    pub out_path: Option<String>,
    pub kill_file: String,
    pub stats_every_s: u64,
    pub bench: bool,
    pub wal_path: Option<String>,
    pub health_file: Option<String>,
    pub toxgate_file: Option<String>,
    pub ledger_path: Option<String>,
    pub hedge_retry: Option<HedgeRetry>,
    pub take_take: Option<TakeTake>,
    pub suppress: Vec<(String, Side)>,
    pub maker_exit_view: bool,
    pub unwind: Option<Unwind>,
    pub marks_out: Option<MarksOut>,
    pub armed: bool,
}

/// Whether a run may do what it is configured to: on a tape nothing that reads a
/// clock or writes a file, unarmed nothing that books or fires.
pub open spec fn configured(
    r: RunCfg,
    a: Args,
    bench: bool,
    armed: bool,
    has_executors: bool,
    undischarged: u64,
    toxgate: Option<String>,
) -> bool {
    &&& r.hedges_undischarged == undischarged
    &&& r.out_path == a.feed.out
    &&& r.kill_file == a.files.kill_file
    &&& r.stats_every_s == a.policy.stats_every_s
    &&& r.bench == bench
    &&& r.wal_path == a.feed.wal
    &&& r.health_file == (if !bench && a.files.health@.len() > 0 {
        Some(a.files.health)
    } else {
        None
    })
    &&& r.toxgate_file == toxgate
    &&& r.ledger_path == (if has_executors && armed {
        Some(a.files.ledger)
    } else {
        None
    })
    &&& r.hedge_retry == (if !bench {
        Some(
            HedgeRetry {
                interval_s: a.policy.hedge_retry_s,
                max_slip: a.policy.hedge_max_slip,
                alarm_after_s: a.policy.hedge_alarm_s,
            },
        )
    } else {
        None
    })
    &&& match r.take_take {
        Some(t) => {
            &&& !bench && a.modes.take_take
            &&& t.max_ct_per_rel == a.modes.tt_max_ct_per_rel
            &&& t.max_clip == a.modes.tt_max_clip
            &&& t.marks_path == a.files.marks
            &&& t.detect_only == (a.modes.tt_detect_only || !armed)
            &&& t.cooldown_s@ == (if t.detect_only {
                "5.0"@
            } else {
                a.policy.hedge_alarm_s@
            })
        },
        None => bench || !a.modes.take_take,
    }
    &&& r.suppress == a.orders.suppress
    &&& r.maker_exit_view == (!bench && (a.modes.maker_exit || a.modes.maker_exit_shadow))
    &&& r.unwind == (if !bench && a.modes.unwind_detect_only {
        Some(Unwind { marks_path: a.files.marks, owned_prefixes: a.orders.rel_prefixes })
    } else {
        None
    })
    &&& match (bench, a.files.marks_out) {
        (false, Some(p)) => r.marks_out == Some(
            MarksOut {
                out_path: p,
                ledger_path: a.files.ledger,
                min_interval_s: 1,
                max_idle_s: 120,
            },
        ),
        _ => r.marks_out is None,
    }
    &&& r.armed == armed
}

/// What the engine may do in a run. Every pass that is off on a tape, or off
/// unless armed, is decided here.
pub fn run_cfg(
    args: Args,
    bench: bool,
    armed: bool,
    has_executors: bool,
    undischarged: u64,
    toxgate: Option<String>,
) -> (r: RunCfg)
    ensures
        configured(r, args, bench, armed, has_executors, undischarged, toxgate),
{
    let health_file: Option<String> = if !bench && !args.files.health.as_str().is_empty() {
        Some(args.files.health.clone())
    } else {
        None
    };
    let ledger_path: Option<String> = if has_executors && armed {
        Some(args.files.ledger.clone())
    } else {
        None
    };
    let detect_only: bool = args.modes.tt_detect_only || !armed;
    let take_take: Option<TakeTake> = if !bench && args.modes.take_take {
        Some(
            TakeTake {
                max_ct_per_rel: args.modes.tt_max_ct_per_rel,
                max_clip: args.modes.tt_max_clip,
                marks_path: args.files.marks.clone(),
                detect_only,
                cooldown_s: if detect_only {
                    "5.0".to_owned()
                } else {
                    args.policy.hedge_alarm_s.clone()
                },
            },
        )
    } else {
        None
    };
    let hedge_retry: Option<HedgeRetry> = if !bench {
        Some(
            HedgeRetry {
                interval_s: args.policy.hedge_retry_s,
                max_slip: args.policy.hedge_max_slip,
                alarm_after_s: args.policy.hedge_alarm_s,
            },
        )
    } else {
        None
    };
    let marks_out: Option<MarksOut> = match (bench, args.files.marks_out) {
        (false, Some(out_path)) => Some(
            MarksOut {
                out_path,
                ledger_path: args.files.ledger,
                min_interval_s: 1,
                max_idle_s: 120,
            },
        ),
        _ => None,
    };
    let unwind: Option<Unwind> = if !bench && args.modes.unwind_detect_only {
        Some(Unwind { marks_path: args.files.marks, owned_prefixes: args.orders.rel_prefixes })
    } else {
        None
    };
    RunCfg {
        hedges_undischarged: undischarged,
        out_path: args.feed.out,
        kill_file: args.files.kill_file,
        stats_every_s: args.policy.stats_every_s,
        bench,
        wal_path: args.feed.wal,
        health_file,
        toxgate_file: toxgate,
        ledger_path,
        hedge_retry,
        take_take,
        suppress: args.orders.suppress,
        maker_exit_view: !bench && (args.modes.maker_exit || args.modes.maker_exit_shadow),
        unwind,
        marks_out,
        armed,
    }
}

// --------------------------------------------------------------------- laws

/// The hurdle rises with the utilization and stays between its ends, which it
/// has at an idle and at a full book.
pub proof fn law_the_hurdle_floats_between_its_ends(a: int, b: int)
    requires
        a <= b,
    ensures
        APR_FLOOR <= bar_at(a) <= bar_at(b) <= APR_CEIL,
        a <= 0 ==> bar_at(a) == APR_FLOOR,
        b >= 1_000_000 ==> bar_at(b) == APR_CEIL,
{
}

/// A run on a tape publishes no view, watches no health file, retries no hedge,
/// takes nothing, reports no unwind and writes no marks.
pub proof fn law_a_tape_starts_no_pass(
    r: RunCfg,
    a: Args,
    armed: bool,
    has_executors: bool,
    undischarged: u64,
    toxgate: Option<String>,
)
    requires
        configured(r, a, true, armed, has_executors, undischarged, toxgate),
    ensures
        !r.maker_exit_view,
        r.health_file is None,
        r.hedge_retry is None,
        r.take_take is None,
        r.unwind is None,
        r.marks_out is None,
{
}

/// A run that is not armed books nothing and fires nothing.
pub proof fn law_an_unarmed_run_books_nothing(
    r: RunCfg,
    a: Args,
    bench: bool,
    has_executors: bool,
    undischarged: u64,
    toxgate: Option<String>,
)
    requires
        configured(r, a, bench, false, has_executors, undischarged, toxgate),
    ensures
        r.ledger_path is None,
        r.take_take matches Some(t) ==> t.detect_only,
{
}

} // verus!
