//! One cycle of the exit pass: what is worked first, which quotes are asked to
//! yield, and where the other leg of a candidate stands.
use crate::assoc::{find, lookup};
use crate::board::{EngineView, MarketSide};
use crate::debounce::{admitted, folded};
use crate::decide::{decide, decision, writes, DecideRefusal, Exit, Lot, Quote};
use crate::gauges::{carried, outstanding, refuse, Gauges};
use crate::live::{gate_keeps, gate_moves, pick, says, Live, Pick, Rotation, TargetRefusal};
use crate::money::qty_ok;
use crate::order::{
    candidate_keys, cross_keys, lift_side, rest_key, rest_side, spells, Order,
};
use crate::venue::Shape;
use vstd::prelude::*;

verus! {

/// What the pass is given at start.
pub struct Cfg {
    pub marks_path: String,
    /// What a relationship's name must start with, one of them, to be in scope;
    /// none where all are.
    pub rel_prefixes: Vec<String>,
    /// The PM-US market of each relationship.
    pub pm_market: Vec<(String, String)>,
}

/// How a cycle opens.
#[derive(Clone, Copy, Debug, PartialEq, Eq, Structural)]
pub enum Opening {
    /// The engine's view cannot be used, and nothing rests.
    Stop,
    /// The engine's view cannot be used; take the resting exit off.
    PullAndStop,
    /// Heal a pending close, look after the resting exit, then select.
    Work { heal: bool, manage: bool },
}

/// How a cycle opens. A view that cannot be believed is no reason to leave an
/// order resting against it; a naked leg comes before everything else.
pub fn opening(live: &Live, view_usable: bool) -> (r: Opening)
    ensures
        r == (if view_usable {
            Opening::Work { heal: live.pending is Some, manage: live.resting is Some }
        } else if live.resting is Some {
            Opening::PullAndStop
        } else {
            Opening::Stop
        }),
{
    if view_usable {
        Opening::Work { heal: live.pending.is_some(), manage: live.resting.is_some() }
    } else if live.resting.is_some() {
        Opening::PullAndStop
    } else {
        Opening::Stop
    }
}

/// Takes the reason why the resting exit should give up its slot, if it should.
pub fn hand_over(live: &mut Live) -> (r: Option<Rotation>)
    requires
        old(live).wf(),
    ensures
        r == old(live).rotate,
        *final(live) == (Live { rotate: None, ..*old(live) }),
        final(live).wf(),
{
    live.rotate.take()
}

/// The PM-US market of a candidate. Without one there is no leg to close, and
/// the candidate counts as refused.
pub fn close_leg_of(gauges: &mut Gauges, cfg: &Cfg, cand: &Exit) -> (r: Option<String>)
    ensures
        match lookup(cfg.pm_market@, cand.rel_id@) {
            Some(m) => r == Some(m) && *final(gauges) == *old(gauges),
            None => r is None && *final(gauges) == old(gauges).plus_refused(),
        },
{
    match find(&cfg.pm_market, cand.rel_id.as_str()) {
        Some(m) => Some(m.clone()),
        None => {
            let _ = refuse(gauges, ());
            None
        },
    }
}

/// Whether a list holds a market and side.
pub open spec fn holds(keys: Seq<MarketSide>, side: (Seq<char>, Seq<char>)) -> bool {
    exists|i: int| 0 <= i < keys.len() && spells(#[trigger] keys[i], side)
}

/// Whether the resting exit occupies a market and side.
pub open spec fn occupies(live: Live, side: (Seq<char>, Seq<char>)) -> bool {
    live.resting matches Some(r) && side == rest_side(
        r.order.shape,
        r.order.market@,
        r.order.pm_market@,
    )
}

/// The market and side that the resting exit occupies, to be asked for while
/// nothing else is.
pub fn resting_keys(live: &Live) -> (r: Vec<MarketSide>)
    ensures
        forall|side: (Seq<char>, Seq<char>)| #[trigger] holds(r@, side) <==> occupies(*live, side),
{
    let mut v: Vec<MarketSide> = Vec::new();
    if let Some(r) = &live.resting {
        v.push(rest_key(&r.order));
        proof {
            let own = rest_side(r.order.shape, r.order.market@, r.order.pm_market@);
            assert forall|side: (Seq<char>, Seq<char>)| #[trigger] holds(v@, side) <==> occupies(
                *live,
                side,
            ) by {
                assert(spells(v@[0], own));
                if holds(v@, side) {
                    let i = choose|i: int| 0 <= i < v@.len() && spells(#[trigger] v@[i], side);
                    assert(i == 0);
                    assert(side == own);
                }
            }
        }
    }
    v
}

/// Whether a cycle that picked a candidate asks for a market and side: what
/// rests, both sides that the candidate might rest, and where it may cross the
/// two that it would lift.
pub open spec fn asks(
    live: Live,
    market: Seq<char>,
    pm_market: Seq<char>,
    side: (Seq<char>, Seq<char>),
) -> bool {
    ||| occupies(live, side)
    ||| side == rest_side(Shape::RestKalshi, market, pm_market)
    ||| side == rest_side(Shape::RestPmUs, market, pm_market)
    ||| live.take_ok && side == lift_side(Shape::RestKalshi, market, pm_market)
    ||| live.take_ok && side == lift_side(Shape::RestPmUs, market, pm_market)
}

proof fn lemma_holds_push(keys: Seq<MarketSide>, k: MarketSide, own: (Seq<char>, Seq<char>))
    requires
        spells(k, own),
    ensures
        forall|side: (Seq<char>, Seq<char>)| #[trigger]
            holds(keys.push(k), side) <==> (holds(keys, side) || side == own),
{
    let after = keys.push(k);
    assert forall|side: (Seq<char>, Seq<char>)| #[trigger] holds(after, side) <==> (holds(
        keys,
        side,
    ) || side == own) by {
        if holds(after, side) {
            let i = choose|i: int| 0 <= i < after.len() && spells(#[trigger] after[i], side);
            if i < keys.len() {
                assert(spells(keys[i], side));
            } else {
                assert(side == own);
            }
        }
        if holds(keys, side) {
            let i = choose|i: int| 0 <= i < keys.len() && spells(#[trigger] keys[i], side);
            assert(spells(after[i], side));
        }
        if side == own {
            assert(spells(after[keys.len() as int], side));
        }
    }
}

fn add_key(keys: &mut Vec<MarketSide>, k: MarketSide, Ghost(own): Ghost<(Seq<char>, Seq<char>)>)
    requires
        spells(k, own),
    ensures
        forall|side: (Seq<char>, Seq<char>)| #[trigger]
            holds(final(keys)@, side) <==> (holds(old(keys)@, side) || side == own),
{
    proof {
        lemma_holds_push(keys@, k, own);
    }
    keys.push(k);
}

/// The quotes that a cycle which picked a candidate asks to yield, before
/// anything is decided: the first cycle asks, and a later one places.
pub fn wanted(live: &Live, market: &str, pm_market: &str) -> (r: Vec<MarketSide>)
    ensures
        forall|side: (Seq<char>, Seq<char>)| #[trigger]
            holds(r@, side) <==> asks(*live, market@, pm_market@, side),
{
    let mut v: Vec<MarketSide> = resting_keys(live);
    let mut rests: Vec<MarketSide> = candidate_keys(market, pm_market);
    let second: MarketSide = rests.pop().unwrap();
    let first: MarketSide = rests.pop().unwrap();
    add_key(&mut v, first, Ghost(rest_side(Shape::RestKalshi, market@, pm_market@)));
    add_key(&mut v, second, Ghost(rest_side(Shape::RestPmUs, market@, pm_market@)));
    if live.take_ok {
        let mut lifts: Vec<MarketSide> = cross_keys(market, pm_market);
        let second: MarketSide = lifts.pop().unwrap();
        let first: MarketSide = lifts.pop().unwrap();
        add_key(&mut v, first, Ghost(lift_side(Shape::RestKalshi, market@, pm_market@)));
        add_key(&mut v, second, Ghost(lift_side(Shape::RestPmUs, market@, pm_market@)));
    }
    v
}


// ------------------------------------------------- from a scan to an exit

/// What a cycle does about the candidates of its scan.
#[derive(Debug)]
pub enum Pursuit {
    /// Nothing may be worked; where the resting exit is to give up its slot, why.
    Nothing { why: TargetRefusal, rotation: Option<Rotation> },
    /// The candidate at this place has no leg to close.
    NoLeg { at: usize },
    /// Ask for the quote of the candidate at this place, whose other leg is this
    /// market's.
    Quote { at: usize, pm: String },
}

/// What a cycle does about a pick from its candidates, of which those `at` were
/// admitted: the refusal says why nothing was picked.
pub open spec fn pursues(
    picked: Pick,
    at: Seq<int>,
    cfg: Cfg,
    exits: Seq<Exit>,
    g: Gauges,
    h: Gauges,
    r: Pursuit,
) -> bool {
    match picked {
        Pick::Candidate(k) => 0 <= k < exits.len() && match lookup(
            cfg.pm_market@,
            exits[k].rel_id@,
        ) {
            Some(m) => h == g && r == (Pursuit::Quote { at: k as usize, pm: m }) && r->Quote_at
                < exits.len(),
            None => h == g.plus_refused() && r == (Pursuit::NoLeg { at: k as usize })
                && r->NoLeg_at < exits.len(),
        },
        refused => h == g && r is Nothing && says(r->why, refused, at, exits, carried(g) as u64),
    }
}

/// Selects what a cycle works. A candidate whose other leg is not known counts as
/// refused; a rotation that is due is handed over with the refusal to rest more.
pub fn pursue(
    live: &mut Live,
    gauges: &mut Gauges,
    cfg: &Cfg,
    exits: &Vec<Exit>,
    wall: u64,
    now: u64,
) -> (r: Pursuit)
    requires
        old(live).wf(),
    ensures
        final(live).wf(),
        folded(old(live).debounce.seen@, exits@, wall, final(live).debounce.seen@),
        gate_keeps(*old(live), *final(live)),
        ({
            let at = admitted(old(live).debounce.seen@, exits@, wall);
            let n = carried(*old(gauges)) as u64;
            let picked = pick(*old(live), at, exits@, now, n);
            &&& pursues(picked, at, *cfg, exits@, *old(gauges), *final(gauges), r)
            &&& gate_moves(
                *old(live),
                Live {
                    rotate: if r is Nothing {
                        r->rotation
                    } else {
                        final(live).rotate
                    },
                    ..*final(live)
                },
                at,
                exits@,
                now,
                n,
            )
            &&& r is Nothing ==> final(live).rotate is None
        }),
{
    let n: u64 = outstanding(gauges);
    match live.target(exits, wall, now, n) {
        Err(why) => {
            let rotation: Option<Rotation> = hand_over(live);
            Pursuit::Nothing { why, rotation }
        },
        Ok(at) => {
            assert(exits.len() == exits@.len());
            match close_leg_of(gauges, cfg, &exits[at]) {
                Some(pm) => Pursuit::Quote { at, pm },
                None => Pursuit::NoLeg { at },
            }
        },
    }
}

/// What a cycle comes to.
#[derive(Debug)]
pub enum Verdict {
    /// The market's quote could not be read.
    NoQuote,
    /// The ledger could not be read, and nothing may be priced off it.
    NoLedger,
    Refused { why: DecideRefusal },
    /// An exit is decided, and none may be sent.
    Shadow { order: Order },
    Place { order: Order },
}

/// Decides on a candidate whose quote and lots were asked for: both legs of its
/// lot where the ledger could be read. It is sized within what `claims`, those of
/// other exits, leave of the closing ladders.
pub fn judge(
    live: &Live,
    gauges: &mut Gauges,
    cand: &Exit,
    pm_market: &str,
    quote: Option<&Quote>,
    lots: Option<(&Result<Lot, String>, &Result<Lot, String>)>,
    inflight: &Result<(), String>,
    view: &EngineView,
    claims: &Vec<(String, i64)>,
    now: u64,
) -> (r: Verdict)
    requires
        live.wf(),
    ensures
        match (quote, lots) {
            (None, _) => r is NoQuote && *final(gauges) == old(gauges).plus_refused(),
            (_, None) => r is NoLedger && *final(gauges) == old(gauges).plus_refused(),
            (Some(q), Some((k, pm))) => match decision(
                live.fees,
                *k,
                *pm,
                inflight is Ok,
                *cand,
                pm_market@,
                *q,
                *view,
                claims@,
                now,
                live.take_ok,
            ) {
                Err(e) => r == (Verdict::Refused { why: e }) && *final(gauges) == old(
                    gauges,
                ).plus_refused(),
                Ok(p) => {
                    let o = if live.shadow {
                        r->Shadow_order
                    } else {
                        r->Place_order
                    };
                    &&& r is Shadow == live.shadow
                    &&& r is Place == !live.shadow
                    &&& writes(o, p, k->Ok_0, pm->Ok_0, *cand, pm_market@, *q, *view)
                    &&& qty_ok(o.qty)
                    &&& *final(gauges) == *old(gauges)
                },
            },
        },
{
    let q: &Quote = match quote {
        None => {
            return refuse(gauges, Verdict::NoQuote);
        },
        Some(q) => q,
    };
    let (k, pm): (&Result<Lot, String>, &Result<Lot, String>) = match lots {
        None => {
            return refuse(gauges, Verdict::NoLedger);
        },
        Some(l) => l,
    };
    match decide(
        gauges,
        &live.fees,
        k,
        pm,
        inflight,
        cand,
        pm_market,
        q,
        view,
        claims,
        now,
        live.take_ok,
    ) {
        Err(why) => Verdict::Refused { why },
        Ok(order) => if live.shadow {
            Verdict::Shadow { order }
        } else {
            Verdict::Place { order }
        },
    }
}

// --------------------------------------------------------------------- laws

/// While a naked leg is carried, or an exit rests, a cycle works nothing new.
pub proof fn law_a_cycle_works_one_exit_at_a_time(
    live: Live,
    cfg: Cfg,
    exits: Seq<Exit>,
    at: Seq<int>,
    now: u64,
    g: Gauges,
    h: Gauges,
    r: Pursuit,
)
    requires
        pursues(pick(live, at, exits, now, carried(g) as u64), at, cfg, exits, g, h, r),
        carried(g) > 0 || live.resting is Some,
        carried(g) <= u64::MAX,
    ensures
        r is Nothing,
        h == g,
{
}

/// Whatever a cycle picks, it asks for the side on which it would rest and keeps
/// asking for the side that already rests, so that an exit never meets our own
/// quote there.
pub proof fn law_what_rests_stays_yielded(
    live: Live,
    shape: Shape,
    market: Seq<char>,
    pm_market: Seq<char>,
)
    ensures
        asks(live, market, pm_market, rest_side(shape, market, pm_market)),
        live.take_ok ==> asks(live, market, pm_market, lift_side(shape, market, pm_market)),
        live.resting matches Some(r) ==> asks(
            live,
            market,
            pm_market,
            rest_side(r.order.shape, r.order.market@, r.order.pm_market@),
        ),
{
}

} // verus!
