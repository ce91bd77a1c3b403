//! What the second leg of a lot's exit may trade at, for one lot and for a group
//! of them, and the price past which a hedge that does not pay is crossed.
use crate::assoc::{find, lookup};
use crate::board::EngineView;
use crate::closing::{
    close_at, close_touch, find_close_at, find_touch, known, read_touch, seen, CloseRefusal,
};
use crate::decimal::{below, fraction_of, rest_of_one, Ratio};
use crate::fees::FeeSchedule;
use crate::group::{
    allocate, reserved, share, shared_out, sharers, with_quantity, ShareRefusal,
};
use crate::ladder::{
    kalshi_step, ladder_ok, legal, legal_ladder, pennies, penny_ladder, step_through, Rung,
};
use crate::money::{far_ok, qty_ok, to_wire, wire, Px, ONE, PX_MAX};
use crate::order::Order;
use crate::pricing::{
    close_limit, dearest_close, exit_limit, least_ask, lemma_quantized_in_range, micro, micro_of,
    quantize, quantized, PriceRefusal, MIN_LOCK,
};
use crate::ratio::FARTHEST;
use crate::venue::{Direction, Role, Shape, Venue};
use vstd::prelude::*;

verus! {

/// Why a hedge has no price that pays.
#[derive(Clone, Copy, Debug, PartialEq, Eq, Structural)]
pub enum HedgeRefusal {
    Share(ShareRefusal),
    Empty,
    /// The limit of an inverse order has no complement.
    InverseRest,
    InverseCross,
    FirstNoPrice,
    KalshiBasisNoPrice,
    PmBasisNoPrice,
    Price(PriceRefusal),
    NoPmAsk,
    AskAboveCeiling,
    NoKalshiBid,
    BidBelowFloor,
    Close(CloseRefusal),
}

impl HedgeRefusal {
    pub open spec fn message(self, o: Order, touch: Seq<char>) -> Seq<char> {
        match self {
            HedgeRefusal::Share(e) => e.message(),
            HedgeRefusal::Empty => "empty hedge allocation"@,
            HedgeRefusal::InverseRest => "invalid inverse rest limit"@,
            HedgeRefusal::InverseCross => "invalid inverse cross limit"@,
            HedgeRefusal::FirstNoPrice => "invalid first-leg limit"@,
            HedgeRefusal::KalshiBasisNoPrice => "invalid Kalshi basis"@,
            HedgeRefusal::PmBasisNoPrice => "invalid PM basis"@,
            HedgeRefusal::Price(e) => e.message(),
            HedgeRefusal::NoPmAsk => "no PM ask"@,
            HedgeRefusal::AskAboveCeiling => "PM ask exceeds close ceiling"@,
            HedgeRefusal::NoKalshiBid => "no Kalshi bid"@,
            HedgeRefusal::BidBelowFloor => "Kalshi bid below close floor"@,
            HedgeRefusal::Close(e) => e.message(o, touch),
        }
    }

    /// The refusal in words.
    pub fn text(&self, o: &Order, touch: &str) -> (r: String)
        ensures
            r@ == self.message(*o, touch@),
    {
        match self {
            HedgeRefusal::Share(e) => e.text(),
            HedgeRefusal::Empty => "empty hedge allocation".to_owned(),
            HedgeRefusal::InverseRest => "invalid inverse rest limit".to_owned(),
            HedgeRefusal::InverseCross => "invalid inverse cross limit".to_owned(),
            HedgeRefusal::FirstNoPrice => "invalid first-leg limit".to_owned(),
            HedgeRefusal::KalshiBasisNoPrice => "invalid Kalshi basis".to_owned(),
            HedgeRefusal::PmBasisNoPrice => "invalid PM basis".to_owned(),
            HedgeRefusal::Price(e) => e.text(),
            HedgeRefusal::NoPmAsk => "no PM ask".to_owned(),
            HedgeRefusal::AskAboveCeiling => "PM ask exceeds close ceiling".to_owned(),
            HedgeRefusal::NoKalshiBid => "no Kalshi bid".to_owned(),
            HedgeRefusal::BidBelowFloor => "Kalshi bid below close floor".to_owned(),
            HedgeRefusal::Close(e) => e.text(o, touch),
        }
    }
}

// ------------------------------------------------------------- the inverse

/// The price of the other outcome: what is left of a dollar.
pub open spec fn complement(p: Option<(int, int)>) -> Option<(int, int)> {
    match p {
        Some(p) => Some(rest_of_one(p)),
        None => None,
    }
}

fn complement_of(p: Option<Ratio>) -> (r: Option<Ratio>)
    requires
        p matches Some(x) ==> x.wf(),
    ensures
        known(r) == complement(known(p)),
        r matches Some(x) ==> x.wf(),
{
    match p {
        Some(p) => Some(p.rest_of_one()),
        None => None,
    }
}

/// A rung as the other outcome has it.
pub open spec fn mirrored(r: Rung) -> Rung {
    Rung { start: (ONE - r.end) as i64, end: (ONE - r.start) as i64, step: r.step }
}

/// A ladder as the other outcome has it, lowest rung first; a rung that would
/// leave the range of prices is left out.
pub open spec fn mirror(ladder: Seq<Rung>) -> Seq<Rung>
    decreases ladder.len(),
{
    if ladder.len() == 0 {
        Seq::empty()
    } else {
        let rest = mirror(ladder.drop_first());
        if mirrored(ladder[0]).wf() {
            rest.push(mirrored(ladder[0]))
        } else {
            rest
        }
    }
}

/// The ladder as the other outcome has it.
pub fn mirror_ladder(ladder: &Vec<Rung>) -> (r: Vec<Rung>)
    requires
        ladder_ok(ladder@),
    ensures
        r@ == mirror(ladder@),
        ladder_ok(r@),
{
    let mut out: Vec<Rung> = Vec::new();
    let mut i: usize = ladder.len();
    assert(ladder@.skip(ladder@.len() as int) =~= Seq::<Rung>::empty());
    while i > 0
        invariant
            i <= ladder@.len(),
            ladder_ok(ladder@),
            out@ == mirror(ladder@.skip(i as int)),
            ladder_ok(out@),
        decreases i,
    {
        i = i - 1;
        let g: Rung = ladder[i];
        let ghost tail = ladder@.skip(i as int);
        assert(tail.drop_first() =~= ladder@.skip(i + 1));
        assert(tail[0] == g);
        assert(g.wf());
        let m: Rung = Rung { start: ONE - g.end, end: ONE - g.start, step: g.step };
        if -PX_MAX <= m.start && m.start <= PX_MAX && -PX_MAX <= m.end && m.end + m.step
            <= PX_MAX {
            assert(m.wf());
            out.push(m);
        }
    }
    assert(ladder@.skip(0) =~= ladder@);
    out
}

// ------------------------------------------------------------- what it takes

/// The published touch on the other side of the one that a close trades
/// against: the PM-US bid, or the Kalshi ask.
pub open spec fn far_touch(o: Order, view: EngineView) -> Option<String> {
    match o.shape {
        Shape::RestKalshi => lookup(view.pm_bid@, o.pm_market@),
        Shape::RestPmUs => lookup(view.k_ask@, o.market@),
    }
}

/// The touch of a hedge: that of the close, or of an inverse basket the
/// complement of the touch on the other side.
pub open spec fn hedge_touch(o: Order, view: EngineView) -> Option<Option<(int, int)>> {
    match o.direction {
        Direction::Standard => read_touch(close_touch(o, view)),
        Direction::Inverse => match far_touch(o, view) {
            None => None,
            Some(t) => match complement(fraction_of(t@)) {
                None => None,
                Some(p) => Some(Some(p)),
            },
        },
    }
}

/// The ladder of an order's Kalshi market, by the cent where it is not known.
pub open spec fn own_ladder(o: Order, view: EngineView) -> Seq<Rung> {
    match lookup(view.k_ladder@, o.market@) {
        Some(l) => legal(l@),
        None => pennies(),
    }
}

/// The price of the first leg: its complement of an inverse basket.
pub open spec fn first_price(o: Order) -> Option<(int, int)> {
    match o.direction {
        Direction::Standard => fraction_of(o.sent_at()@),
        Direction::Inverse => complement(fraction_of(o.sent_at()@)),
    }
}

/// Why an inverse order cannot be read as a standard one, if it cannot.
pub open spec fn inverse_refusal(o: Order) -> Option<HedgeRefusal> {
    if o.direction == Direction::Standard {
        None
    } else if fraction_of(o.limit@) is None {
        Some(HedgeRefusal::InverseRest)
    } else if o.cross is Some && fraction_of(o.sent_at()@) is None {
        Some(HedgeRefusal::InverseCross)
    } else {
        None
    }
}

/// The bound of a hedge whose first leg crossed: both legs take.
pub open spec fn taken_bound(
    fees: FeeSchedule,
    shape: Shape,
    ladder: Seq<Rung>,
    first: (int, int),
    k_basis: (int, int),
    pm_basis: (int, int),
    qty: i64,
) -> Result<Px, PriceRefusal> {
    match shape {
        Shape::RestKalshi => dearest_close(
            fees,
            first,
            k_basis,
            pm_basis,
            qty,
            Role::Taker,
            Role::Taker,
            MIN_LOCK,
        ),
        Shape::RestPmUs => least_ask(
            fees,
            ladder,
            k_basis,
            pm_basis,
            first,
            qty,
            Role::Taker,
            Role::Taker,
            MIN_LOCK,
        ),
    }
}

/// The price of a hedge whose first leg crossed.
pub open spec fn taken_at(
    fees: FeeSchedule,
    shape: Shape,
    first: Option<(int, int)>,
    k_basis: Option<(int, int)>,
    pm_basis: Option<(int, int)>,
    ladder: Seq<Rung>,
    touch: Option<Option<(int, int)>>,
    qty: i64,
) -> Result<Px, HedgeRefusal> {
    match (first, k_basis, pm_basis) {
        (None, _, _) => Err(HedgeRefusal::FirstNoPrice),
        (_, None, _) => Err(HedgeRefusal::KalshiBasisNoPrice),
        (_, _, None) => Err(HedgeRefusal::PmBasisNoPrice),
        (Some(first), Some(kb), Some(pb)) => match taken_bound(
            fees,
            shape,
            ladder,
            first,
            kb,
            pb,
            qty,
        ) {
            Err(e) => Err(HedgeRefusal::Price(e)),
            Ok(limit) => match (touch, shape) {
                (Some(Some(t)), Shape::RestKalshi) => if below((limit as int, 1), micro(t)) {
                    Err(HedgeRefusal::AskAboveCeiling)
                } else {
                    Ok(limit)
                },
                (Some(Some(t)), Shape::RestPmUs) => if below(micro(t), (limit as int, 1)) {
                    Err(HedgeRefusal::BidBelowFloor)
                } else {
                    Ok(limit)
                },
                (_, Shape::RestKalshi) => Err(HedgeRefusal::NoPmAsk),
                (_, Shape::RestPmUs) => Err(HedgeRefusal::NoKalshiBid),
            },
        },
    }
}

/// The price of a hedge as the outcome that is held has it.
pub open spec fn held_price(fees: FeeSchedule, o: Order, qty: i64, view: EngineView) -> Result<
    Px,
    HedgeRefusal,
> {
    let ladder = if o.direction == Direction::Standard {
        own_ladder(o, view)
    } else {
        mirror(own_ladder(o, view))
    };
    if o.cross is Some {
        taken_at(
            fees,
            o.shape,
            first_price(o),
            fraction_of(o.k_basis@),
            fraction_of(o.pm_basis@),
            ladder,
            hedge_touch(o, view),
            qty,
        )
    } else {
        match close_at(
            fees,
            o.shape,
            first_price(o),
            fraction_of(o.k_basis@),
            fraction_of(o.pm_basis@),
            qty,
            hedge_touch(o, view),
        ) {
            Ok(p) => Ok(p),
            Err(e) => Err(HedgeRefusal::Close(e)),
        }
    }
}

/// The price of the second leg for `qty` contracts of a lot, rounded for the
/// wire, or why it does not pay. A basket held the other way round is priced by
/// complements.
pub open spec fn hedge_price(fees: FeeSchedule, o: Order, qty: i64, view: EngineView) -> Result<
    Px,
    HedgeRefusal,
> {
    match inverse_refusal(o) {
        Some(e) => Err(e),
        None => match held_price(fees, o, qty, view) {
            Err(e) => Err(e),
            Ok(p) => Ok(
                (if o.direction == Direction::Standard {
                    wire(p)
                } else {
                    ONE - wire(p)
                }) as i64,
            ),
        },
    }
}

fn find_far_touch<'a>(o: &Order, view: &'a EngineView) -> (r: Option<&'a String>)
    ensures
        match r {
            Some(t) => far_touch(*o, *view) == Some(*t),
            None => far_touch(*o, *view) is None,
        },
{
    match o.shape {
        Shape::RestKalshi => find(&view.pm_bid, o.pm_market.as_str()),
        Shape::RestPmUs => find(&view.k_ask, o.market.as_str()),
    }
}

fn find_hedge_touch(o: &Order, view: &EngineView) -> (r: Option<Option<Ratio>>)
    ensures
        seen(r) == hedge_touch(*o, *view),
        r matches Some(Some(x)) ==> x.wf(),
{
    match o.direction {
        Direction::Standard => match find_touch(o, view) {
            None => None,
            Some(t) => Some(Ratio::read(t.as_str())),
        },
        Direction::Inverse => match find_far_touch(o, view) {
            None => None,
            Some(t) => match complement_of(Ratio::read(t.as_str())) {
                None => None,
                Some(p) => Some(Some(p)),
            },
        },
    }
}

fn find_ladder(o: &Order, view: &EngineView) -> (r: Vec<Rung>)
    ensures
        r@ == (if o.direction == Direction::Standard {
            own_ladder(*o, *view)
        } else {
            mirror(own_ladder(*o, *view))
        }),
        ladder_ok(r@),
{
    match find(&view.k_ladder, o.market.as_str()) {
        Some(l) => {
            let l: Vec<Rung> = legal_ladder(l);
            match o.direction {
                Direction::Standard => l,
                Direction::Inverse => mirror_ladder(&l),
            }
        },
        None => {
            let l: Vec<Rung> = penny_ladder();
            match o.direction {
                Direction::Standard => l,
                Direction::Inverse => mirror_ladder(&l),
            }
        },
    }
}

fn find_taken_at(
    fees: &FeeSchedule,
    shape: Shape,
    first: &Option<Ratio>,
    k_basis: &Option<Ratio>,
    pm_basis: &Option<Ratio>,
    ladder: &Vec<Rung>,
    touch: &Option<Option<Ratio>>,
    qty: i64,
) -> (r: Result<Px, HedgeRefusal>)
    requires
        fees.wf(),
        qty_ok(qty),
        ladder_ok(ladder@),
        first matches Some(p) ==> p.wf(),
        k_basis matches Some(p) ==> p.wf(),
        pm_basis matches Some(p) ==> p.wf(),
        touch matches Some(Some(p)) ==> p.wf(),
    ensures
        r == taken_at(
            *fees,
            shape,
            known(*first),
            known(*k_basis),
            known(*pm_basis),
            ladder@,
            seen(*touch),
            qty,
        ),
        r matches Ok(p) ==> -FARTHEST <= p <= FARTHEST,
{
    let (first, k_basis, pm_basis): (&Ratio, &Ratio, &Ratio) = match (first, k_basis, pm_basis) {
        (None, _, _) => {
            return Err(HedgeRefusal::FirstNoPrice);
        },
        (_, None, _) => {
            return Err(HedgeRefusal::KalshiBasisNoPrice);
        },
        (_, _, None) => {
            return Err(HedgeRefusal::PmBasisNoPrice);
        },
        (Some(a), Some(b), Some(c)) => (a, b, c),
    };
    let bound: Result<Px, PriceRefusal> = match shape {
        Shape::RestKalshi => close_limit(
            fees,
            first,
            k_basis,
            pm_basis,
            qty,
            Role::Taker,
            Role::Taker,
            MIN_LOCK,
        ),
        Shape::RestPmUs => exit_limit(
            fees,
            ladder,
            k_basis,
            pm_basis,
            first,
            qty,
            Role::Taker,
            Role::Taker,
            MIN_LOCK,
        ),
    };
    let limit: Px = match bound {
        Err(e) => {
            return Err(HedgeRefusal::Price(e));
        },
        Ok(p) => p,
    };
    match (touch, shape) {
        (Some(Some(t)), Shape::RestKalshi) => if micro_of(t).above(limit as i128) {
            Err(HedgeRefusal::AskAboveCeiling)
        } else {
            Ok(limit)
        },
        (Some(Some(t)), Shape::RestPmUs) => if micro_of(t).under(limit as i128) {
            Err(HedgeRefusal::BidBelowFloor)
        } else {
            Ok(limit)
        },
        (_, Shape::RestKalshi) => Err(HedgeRefusal::NoPmAsk),
        (_, Shape::RestPmUs) => Err(HedgeRefusal::NoKalshiBid),
    }
}

/// The price of the first leg, or why an inverse order has none.
fn find_first(o: &Order) -> (r: Result<Option<Ratio>, HedgeRefusal>)
    ensures
        match (inverse_refusal(*o), r) {
            (Some(e), Err(f)) => e == f,
            (None, Ok(p)) => known(p) == first_price(*o),
            _ => false,
        },
        r matches Ok(Some(p)) ==> p.wf(),
{
    match o.direction {
        Direction::Standard => Ok(Ratio::read(o.rest_limit())),
        Direction::Inverse => {
            if Ratio::read(o.limit.as_str()).is_none() {
                return Err(HedgeRefusal::InverseRest);
            }
            let c: Option<Ratio> = complement_of(Ratio::read(o.rest_limit()));
            if o.cross.is_some() && c.is_none() {
                return Err(HedgeRefusal::InverseCross);
            }
            Ok(c)
        },
    }
}

#[verifier::spinoff_prover]
fn find_held_price(
    fees: &FeeSchedule,
    o: &Order,
    first: &Option<Ratio>,
    qty: i64,
    view: &EngineView,
) -> (r: Result<Px, HedgeRefusal>)
    requires
        fees.wf(),
        qty_ok(qty),
        known(*first) == first_price(*o),
        first matches Some(p) ==> p.wf(),
    ensures
        r == held_price(*fees, *o, qty, *view),
        r matches Ok(p) ==> -FARTHEST <= p <= FARTHEST,
{
    let k_basis: Option<Ratio> = Ratio::read(o.k_basis.as_str());
    let pm_basis: Option<Ratio> = Ratio::read(o.pm_basis.as_str());
    let touch: Option<Option<Ratio>> = find_hedge_touch(o, view);
    if o.cross.is_some() {
        let ladder: Vec<Rung> = find_ladder(o, view);
        return find_taken_at(fees, o.shape, first, &k_basis, &pm_basis, &ladder, &touch, qty);
    }
    match find_close_at(fees, o.shape, first, &k_basis, &pm_basis, qty, &touch) {
        Ok(p) => Ok(p),
        Err(e) => Err(HedgeRefusal::Close(e)),
    }
}

/// Prices the second leg for `qty` contracts of a lot, of the limit that its
/// first leg was sent at and of what that leg pays in fees.
pub fn hedge_limit(fees: &FeeSchedule, o: &Order, qty: i64, view: &EngineView) -> (r: Result<
    Px,
    HedgeRefusal,
>)
    requires
        fees.wf(),
        qty_ok(qty),
    ensures
        r == hedge_price(*fees, *o, qty, *view),
        r matches Ok(p) ==> far_ok(p),
{
    let first: Option<Ratio> = match find_first(o) {
        Err(e) => {
            return Err(e);
        },
        Ok(p) => p,
    };
    match find_held_price(fees, o, &first, qty, view) {
        Err(e) => Err(e),
        Ok(p) => {
            let w: Px = to_wire(p);
            match o.direction {
                Direction::Standard => Ok(w),
                Direction::Inverse => Ok(ONE - w),
            }
        },
    }
}

// ------------------------------------------------------------- for a group

/// An order for its share of fills.
pub open spec fn part_of(members: Seq<Order>, i: int, from: int, to: int) -> Order {
    Order { qty: share(members, i, from, to) as i64, ..members[i] }
}

/// The stricter of two limits: the higher of a sale, the lower of a purchase.
pub open spec fn stricter(best: Option<Px>, p: Px, selling: bool) -> Px {
    match best {
        None => p,
        Some(b) => if selling {
            if p > b {
                p
            } else {
                b
            }
        } else if p < b {
            p
        } else {
            b
        },
    }
}

/// The strictest of the limits of the first `n` orders, each for its share of
/// the fills.
pub open spec fn strictest(
    fees: FeeSchedule,
    members: Seq<Order>,
    from: int,
    to: int,
    selling: bool,
    view: EngineView,
    n: nat,
) -> Result<Option<Px>, HedgeRefusal>
    decreases n,
{
    if n == 0 {
        Ok(None)
    } else {
        match strictest(fees, members, from, to, selling, view, (n - 1) as nat) {
            Err(e) => Err(e),
            Ok(best) => if share(members, n - 1, from, to) <= 0 {
                Ok(best)
            } else {
                match hedge_price(
                    fees,
                    part_of(members, n - 1, from, to),
                    part_of(members, n - 1, from, to).qty,
                    view,
                ) {
                    Err(e) => Err(e),
                    Ok(p) => Ok(Some(stricter(best, p, selling))),
                }
            },
        }
    }
}

/// The limit of a hedge for `qty` contracts of a group behind the `hedged` ones
/// that are closed: one at which every lot that it closes still pays.
pub open spec fn group_price(
    fees: FeeSchedule,
    members: Seq<Order>,
    hedged: i64,
    qty: i64,
    selling: bool,
    view: EngineView,
) -> Result<Px, HedgeRefusal> {
    if hedged < 0 || qty < 0 {
        Err(HedgeRefusal::Share(ShareRefusal::Negative))
    } else if hedged + qty > reserved(members, members.len()) {
        Err(HedgeRefusal::Share(ShareRefusal::Exceeds))
    } else {
        match strictest(
            fees,
            members,
            hedged as int,
            hedged + qty,
            selling,
            view,
            members.len(),
        ) {
            Err(e) => Err(e),
            Ok(None) => Err(HedgeRefusal::Empty),
            Ok(Some(p)) => Ok(p),
        }
    }
}

/// Whether every order has a quantity that can trade.
pub open spec fn tradable(members: Seq<Order>) -> bool {
    forall|i: int| 0 <= i < members.len() ==> qty_ok((#[trigger] members[i]).qty)
}

proof fn lemma_sharers(members: Seq<Order>, from: int, to: int, i: nat, n: nat)
    requires
        i <= n,
    ensures
        sharers(members, from, to, i).len() <= sharers(members, from, to, n).len(),
        forall|k: int|
            0 <= k < sharers(members, from, to, i).len() ==> #[trigger] sharers(
                members,
                from,
                to,
                n,
            )[k] == sharers(members, from, to, i)[k],
        forall|k: int|
            0 <= k < sharers(members, from, to, n).len() ==> 0 <= #[trigger] sharers(
                members,
                from,
                to,
                n,
            )[k] < n,
        forall|k: int|
            sharers(members, from, to, i).len() <= k < sharers(members, from, to, n).len()
                ==> #[trigger] sharers(members, from, to, n)[k] >= i,
    decreases n,
{
    if n > 0 {
        let below = sharers(members, from, to, (n - 1) as nat);
        let all = sharers(members, from, to, n);
        if i < n {
            lemma_sharers(members, from, to, i, (n - 1) as nat);
        } else {
            lemma_sharers(members, from, to, (n - 1) as nat, (n - 1) as nat);
        }
        assert forall|k: int| 0 <= k < all.len() implies 0 <= #[trigger] all[k] < n by {
            if k < below.len() {
                assert(all[k] == below[k]);
            }
        }
        assert forall|k: int|
            sharers(members, from, to, i).len() <= k < all.len() implies #[trigger] all[k] >= i by {
            if k < below.len() {
                assert(all[k] == below[k]);
            }
        }
    }
}

proof fn lemma_strictest_err(
    fees: FeeSchedule,
    members: Seq<Order>,
    from: int,
    to: int,
    selling: bool,
    view: EngineView,
    n: nat,
    m: nat,
)
    requires
        n <= m,
        strictest(fees, members, from, to, selling, view, n) is Err,
    ensures
        strictest(fees, members, from, to, selling, view, m) == strictest(
            fees,
            members,
            from,
            to,
            selling,
            view,
            n,
        ),
    decreases m,
{
    if n < m {
        lemma_strictest_err(fees, members, from, to, selling, view, n, (m - 1) as nat);
    }
}

/// The limit of a hedge for `qty` contracts of a group.
pub fn group_hedge_limit(
    fees: &FeeSchedule,
    members: &Vec<Order>,
    hedged: i64,
    qty: i64,
    selling: bool,
    view: &EngineView,
) -> (r: Result<Px, HedgeRefusal>)
    requires
        fees.wf(),
        tradable(members@),
    ensures
        r == group_price(*fees, members@, hedged, qty, selling, *view),
        r matches Ok(p) ==> far_ok(p),
{
    let parts: Vec<(usize, Order)> = match allocate(members, hedged, qty) {
        Err(e) => {
            return Err(HedgeRefusal::Share(e));
        },
        Ok(v) => v,
    };
    let ghost (ms, from, to) = (members@, hedged as int, hedged + qty);
    let ghost all = sharers(ms, from, to, ms.len());
    let mut best: Option<Px> = None;
    let mut k: usize = 0;
    let mut i: usize = 0;
    while i < members.len()
        invariant
            i <= members.len(),
            ms == members@,
            tradable(ms),
            with_quantity(ms),
            fees.wf(),
            all == sharers(ms, from, to, ms.len()),
            shared_out(parts@, ms, from, to, ms.len()),
            k == sharers(ms, from, to, i as nat).len(),
            k <= parts@.len(),
            0 <= hedged,
            0 <= qty,
            from == hedged,
            to == hedged + qty,
            to <= reserved(ms, ms.len()),
            strictest(*fees, ms, from, to, selling, *view, i as nat) == Ok::<
                Option<Px>,
                HedgeRefusal,
            >(best),
            best matches Some(p) ==> far_ok(p),
        decreases members.len() - i,
    {
        proof {
            lemma_sharers(ms, from, to, i as nat, ms.len());
            lemma_sharers(ms, from, to, (i + 1) as nat, ms.len());
        }
        if k < parts.len() && parts[k].0 == i {
            assert(all[k as int] == i);
            proof {
                if share(ms, i as int, from, to) <= 0 {
                    assert(sharers(ms, from, to, (i + 1) as nat).len() == k);
                    assert(all[k as int] >= i + 1);
                }
                crate::group::law_fills_are_shared_once(ms, i as int, from, from, to);
            }
            let part: &Order = &parts[k].1;
            assert(*part == part_of(ms, i as int, from, to));
            match hedge_limit(fees, part, part.qty, view) {
                Err(e) => {
                    proof {
                        lemma_strictest_err(
                            *fees,
                            ms,
                            from,
                            to,
                            selling,
                            *view,
                            (i + 1) as nat,
                            ms.len(),
                        );
                    }
                    return Err(e);
                },
                Ok(p) => {
                    best = Some(
                        match best {
                            None => p,
                            Some(b) => if selling {
                                if p > b {
                                    p
                                } else {
                                    b
                                }
                            } else if p < b {
                                p
                            } else {
                                b
                            },
                        },
                    );
                },
            }
            k = k + 1;
        } else {
            proof {
                if share(ms, i as int, from, to) > 0 {
                    let next = sharers(ms, from, to, (i + 1) as nat);
                    assert(next.len() == k + 1);
                    assert(next[k as int] == i);
                    assert(all[k as int] == i);
                    assert(parts@[k as int].0 == i);
                }
            }
        }
        i = i + 1;
    }
    match best {
        None => Err(HedgeRefusal::Empty),
        Some(p) => Ok(p),
    }
}

// --------------------------------------------------------- crossing out

/// Why there is no price at which a hedge would trade.
#[derive(Clone, Copy, Debug, PartialEq, Eq, Structural)]
pub enum CrossRefusal {
    NoBook,
    /// The touch stands on no rung of the market's ladder.
    NoStep,
    /// The price is not between nothing and a dollar.
    Outside,
}

impl CrossRefusal {
    pub open spec fn message(self) -> Seq<char> {
        match self {
            CrossRefusal::NoBook => "no executable hedge book"@,
            CrossRefusal::NoStep => "no legal hedge price through the touch"@,
            CrossRefusal::Outside => "hedge price outside (0, 1)"@,
        }
    }

    /// The refusal in words.
    pub fn text(&self) -> (r: String)
        ensures
            r@ == self.message(),
    {
        match self {
            CrossRefusal::NoBook => "no executable hedge book".to_owned(),
            CrossRefusal::NoStep => "no legal hedge price through the touch".to_owned(),
            CrossRefusal::Outside => "hedge price outside (0, 1)".to_owned(),
        }
    }
}

/// Whether the hedge of an order sells.
pub open spec fn hedge_sells(o: Order) -> bool {
    o.direction.sells_at(o.shape.closes_at())
}

/// The touch that a hedge trades against, whatever it pays.
pub open spec fn executable_touch(o: Order, view: EngineView) -> Option<String> {
    match (o.shape.closes_at(), hedge_sells(o)) {
        (Venue::PolymarketUs, false) => lookup(view.pm_ask@, o.closes_on()@),
        (Venue::PolymarketUs, true) => lookup(view.pm_bid@, o.closes_on()@),
        (Venue::Kalshi, false) => lookup(view.k_ask@, o.closes_on()@),
        (Venue::Kalshi, true) => lookup(view.k_bid@, o.closes_on()@),
    }
}

/// The ladder by which a hedge steps: that of its market on Kalshi, and the cent
/// on PM-US.
pub open spec fn hedge_ladder(o: Order, view: EngineView) -> Option<Seq<Rung>> {
    match o.shape.closes_at() {
        Venue::Kalshi => match lookup(view.k_ladder@, o.closes_on()@) {
            Some(l) => Some(legal(l@)),
            None => None,
        },
        Venue::PolymarketUs => None,
    }
}

/// The price one step through the touch, at which a hedge trades whatever it
/// pays.
pub open spec fn cross_price(o: Order, view: EngineView) -> Result<Px, CrossRefusal> {
    match executable_touch(o, view) {
        None => Err(CrossRefusal::NoBook),
        Some(t) => match fraction_of(t@) {
            None => Err(CrossRefusal::NoBook),
            Some(touch) => match step_through(hedge_ladder(o, view), touch, hedge_sells(o)) {
                None => Err(CrossRefusal::NoStep),
                Some(p) => if p.0 <= 0 || p.0 >= p.1 {
                    Err(CrossRefusal::Outside)
                } else {
                    Ok(quantized(p) as i64)
                },
            },
        },
    }
}

/// The price one step through the touch.
pub fn cross_limit(o: &Order, view: &EngineView) -> (r: Result<Px, CrossRefusal>)
    ensures
        r == cross_price(*o, *view),
        r matches Ok(p) ==> 0 <= p <= ONE,
{
    let venue: Venue = o.shape.close_venue();
    let selling: bool = o.direction.sells(venue);
    let market: &str = o.close_market();
    let text: Option<&String> = match (venue, selling) {
        (Venue::PolymarketUs, false) => find(&view.pm_ask, market),
        (Venue::PolymarketUs, true) => find(&view.pm_bid, market),
        (Venue::Kalshi, false) => find(&view.k_ask, market),
        (Venue::Kalshi, true) => find(&view.k_bid, market),
    };
    let touch: Ratio = match text {
        None => {
            return Err(CrossRefusal::NoBook);
        },
        Some(t) => match Ratio::read(t.as_str()) {
            None => {
                return Err(CrossRefusal::NoBook);
            },
            Some(p) => p,
        },
    };
    let ladder: Option<Vec<Rung>> = match venue {
        Venue::Kalshi => match find(&view.k_ladder, market) {
            Some(l) => Some(legal_ladder(l)),
            None => None,
        },
        Venue::PolymarketUs => None,
    };
    match kalshi_step(ladder.as_ref(), &touch, selling) {
        None => Err(CrossRefusal::NoStep),
        Some(p) => if !p.above(0) || !p.under(1) {
            Err(CrossRefusal::Outside)
        } else {
            proof {
                lemma_quantized_in_range(p.at());
            }
            Ok(quantize(&p))
        },
    }
}

// --------------------------------------------------------------------- laws

/// The limit of a group's hedge is one at which every lot that it closes pays:
/// no sale goes below, and no purchase above, the limit of any of them.
pub proof fn law_a_group_hedge_suits_every_lot(
    fees: FeeSchedule,
    members: Seq<Order>,
    hedged: i64,
    qty: i64,
    selling: bool,
    view: EngineView,
    p: Px,
    i: int,
)
    requires
        group_price(fees, members, hedged, qty, selling, view) == Ok::<Px, HedgeRefusal>(p),
        0 <= i < members.len(),
        share(members, i, hedged as int, hedged + qty) > 0,
    ensures
        ({
            let part = part_of(members, i, hedged as int, hedged + qty);
            hedge_price(fees, part, part.qty, view) matches Ok(own) && if selling {
                p >= own
            } else {
                p <= own
            }
        }),
{
    lemma_strictest_suits(
        fees,
        members,
        hedged as int,
        hedged + qty,
        selling,
        view,
        members.len(),
        i,
    );
}

proof fn lemma_strictest_suits(
    fees: FeeSchedule,
    members: Seq<Order>,
    from: int,
    to: int,
    selling: bool,
    view: EngineView,
    n: nat,
    i: int,
)
    requires
        strictest(fees, members, from, to, selling, view, n) is Ok,
        0 <= i < n,
        share(members, i, from, to) > 0,
    ensures
        ({
            let part = part_of(members, i, from, to);
            &&& strictest(fees, members, from, to, selling, view, n)->Ok_0 matches Some(p)
                && hedge_price(fees, part, part.qty, view) matches Ok(own) && if selling {
                p >= own
            } else {
                p <= own
            }
        }),
    decreases n,
{
    if i < n - 1 {
        lemma_strictest_suits(fees, members, from, to, selling, view, (n - 1) as nat, i);
    }
}

} // verus!
