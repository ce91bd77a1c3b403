//! Exits of whole lots: each lot's order is accounted by its own receipts, so
//! that lots on one market never take each other's fills for their own.
use crate::board::MarketSide;
use crate::decide::Exit;
use crate::exit::requests;
use crate::group::{aggregate, aggregated, lot_keys, lot_keys_of, reserved, texts, GroupRefusal};
use crate::hedge::tradable;
use crate::ids::{id_of, id_text, next_id, next_number, IdClock};
use crate::keys::{group_key, group_terms, is_opened_later, lot_digest, lot_key, opened_later};
use crate::money::{qty_ok, QTY_MAX};
use crate::order::{candidate_keys_for, cross_keys_for, far_side, own_side, spells, Order};
use crate::text::same;
use crate::venue::{Direction, PlaceRequest, Shape, Side, Tif, Venue};
use vstd::prelude::*;
use vstd::string::StringExecFns;

verus! {

/// How long after a lost answer the absence of an order from Kalshi's list is
/// proof that it never landed, in microseconds.
pub const ABSENT_IS_PROOF_AFTER_US: u64 = 300_000_000;

// ---------------------------------------------------------------- receipts

/// An order that was sent, or is about to be.
#[derive(Debug)]
pub struct Receipt {
    pub client: String,
    /// The venue's id, once it is known.
    pub id: Option<String>,
    pub price: String,
    pub qty: i64,
    /// The number under which what it closes is booked, in microseconds; taken
    /// before the order is sent.
    pub book_us: u64,
    /// The same for each lot of a group.
    pub allocation_us: Vec<u64>,
}

/// Whether a request is the one of a receipt: the first order of an exit, or the
/// hedge of one.
pub open spec fn asked_by(req: PlaceRequest, rc: Receipt, o: Order, hedge: bool) -> bool {
    let venue = if hedge {
        o.shape.closes_at()
    } else {
        o.shape.rests_at()
    };
    let passive = !hedge && o.cross is None;
    requests(
        req,
        if hedge {
            o.closes_on()@
        } else {
            o.rests_on()@
        },
        if o.direction.sells_at(venue) {
            Side::Ask
        } else {
            Side::Bid
        },
        rc.price@,
        rc.qty as int,
        if passive {
            Tif::Gtc
        } else {
            Tif::Ioc
        },
        passive,
        rc.client@,
    )
}

/// When an order was placed, by the clock that ages are counted by. `book_us`
/// is the number that the order was sent under and `wall_us` the time of day,
/// both in microseconds; an order from the future was placed just now, and so
/// was one that is older than the clock.
pub open spec fn placed_when(book_us: u64, wall_us: u64, now: u64) -> int {
    let age = if wall_us > book_us {
        (wall_us - book_us) * 1_000
    } else {
        0
    };
    if age <= now {
        now - age
    } else {
        now as int
    }
}

/// When an order was placed, in nanoseconds, from the number that it was sent
/// under: its age is the real one, across a restart too.
pub fn placed_at(book_us: u64, wall_us: u64, now: u64) -> (r: u64)
    ensures
        r == placed_when(book_us, wall_us, now),
{
    let age_us: u64 = if wall_us > book_us {
        wall_us - book_us
    } else {
        0
    };
    if age_us <= now / 1_000 {
        now - age_us * 1_000
    } else {
        now
    }
}

impl Receipt {
    /// A receipt for an order that is not sent yet, under a fresh id.
    pub fn new(clock: &mut IdClock, now: u64, price: String, qty: i64) -> (r: Receipt)
        requires
            old(clock).last < u64::MAX,
        ensures
            r.book_us == next_id(old(clock).last, now),
            final(clock).last == r.book_us,
            r.book_us > old(clock).last,
            r.client@ == id_text(r.book_us as int),
            r.id is None,
            r.price == price,
            r.qty == qty,
            r.allocation_us@.len() == 0,
    {
        let n: u64 = next_number(clock, now);
        Receipt { client: id_of(n), id: None, price, qty, book_us: n, allocation_us: Vec::new() }
    }

    /// The request of a receipt. The venue and the direction of the basket say
    /// which side it takes; only a first order that does not cross rests.
    pub fn request(&self, o: &Order, hedge: bool) -> (r: PlaceRequest)
        ensures
            asked_by(r, *self, *o, hedge),
    {
        let venue: Venue = if hedge {
            o.shape.close_venue()
        } else {
            o.shape.rest_venue()
        };
        let passive: bool = !hedge && o.cross.is_none();
        PlaceRequest {
            market: (if hedge {
                o.close_market()
            } else {
                o.rest_market()
            }).to_owned(),
            side: if o.direction.sells(venue) {
                Side::Ask
            } else {
                Side::Bid
            },
            price: self.price.clone(),
            qty: self.qty,
            tif: if passive {
                Tif::Gtc
            } else {
                Tif::Ioc
            },
            post_only: passive,
            client_order_id: self.client.clone(),
        }
    }
}

// ------------------------------------------------------------------- state

/// What is under way for a lot.
#[derive(Debug)]
pub struct Active {
    /// The order that rests, for the quantity of all its lots.
    pub order: Order,
    /// The orders of its lots, oldest first; none where it has only its own.
    pub allocations: Vec<Order>,
    /// Whether it should come off, to rest again with others.
    pub regroup: bool,
    pub rest: Receipt,
    /// What the resting order filled, once it is over.
    pub filled: Option<i64>,
    /// How much of that is closed and booked.
    pub hedged: i64,
    pub hedge: Option<Receipt>,
    /// How often a hedge was priced.
    pub attempts: u32,
}

impl Active {
    pub open spec fn lots(self) -> Seq<Order> {
        if self.allocations@.len() == 0 {
            seq![self.order]
        } else {
            self.allocations@
        }
    }

    /// The invariant: the lots make up the order, nothing is closed beyond what
    /// filled nor filled beyond what was ordered, and a hedge that is out is for
    /// exactly what is owed.
    pub open spec fn wf(self) -> bool {
        &&& qty_ok(self.order.qty)
        &&& tradable(self.lots())
        &&& reserved(self.lots(), self.lots().len()) == self.order.qty
        &&& self.rest.qty == self.order.qty
        &&& match self.filled {
            None => self.hedged == 0 && self.hedge is None,
            Some(f) => {
                &&& 0 <= self.hedged <= f <= self.order.qty
                &&& self.hedge matches Some(h) ==> h.qty == f - self.hedged && h.qty >= 1
            },
        }
    }

    /// The orders of its lots.
    pub fn members(&self) -> (r: Vec<Order>)
        ensures
            r@ == self.lots(),
    {
        if self.allocations.len() == 0 {
            let mut v: Vec<Order> = Vec::new();
            v.push(self.order.clone());
            assert(v@ =~= self.lots());
            return v;
        }
        let mut v: Vec<Order> = Vec::new();
        let mut i: usize = 0;
        while i < self.allocations.len()
            invariant
                i <= self.allocations.len(),
                v@ == self.allocations@.take(i as int),
            decreases self.allocations.len() - i,
        {
            v.push(self.allocations[i].clone());
            assert(v@ =~= self.allocations@.take(i + 1));
            i = i + 1;
        }
        assert(self.allocations@.take(self.allocations@.len() as int) =~= self.allocations@);
        v
    }
}

/// A lot and what is under way for it.
#[derive(Debug)]
pub struct State {
    pub rel_id: String,
    pub market: String,
    /// The bits of the time at which the lot was opened.
    pub opened_bits: u64,
    pub active: Option<Active>,
    /// Whether this lot stops new exits.
    pub latched: bool,
}

/// The ladder that a close trades against, by name.
pub open spec fn depth_key(direction: Direction, shape: Shape, o_market: Seq<char>) -> Seq<char> {
    shape.closes_at().name() + ":"@ + o_market + ":"@ + (if direction.sells_at(shape.closes_at()) {
        Side::Bid.name()
    } else {
        Side::Ask.name()
    })
}

/// The ladder that the close of an exit trades against, by name: the venue and
/// market of the closing leg, and the side that it lifts.
pub fn close_depth_key(direction: Direction, shape: Shape, market: &str, pm_market: &str) -> (r:
    String)
    ensures
        r@ == depth_key(
            direction,
            shape,
            match shape {
                Shape::RestKalshi => pm_market@,
                Shape::RestPmUs => market@,
            },
        ),
{
    let mut s: String = shape.close_venue().as_str().to_owned();
    s.append(":");
    s.append(
        match shape {
            Shape::RestKalshi => pm_market,
            Shape::RestPmUs => market,
        },
    );
    s.append(":");
    s.append(
        if direction.sells(shape.close_venue()) {
            Side::Bid.as_str()
        } else {
            Side::Ask.as_str()
        },
    );
    s
}

impl State {
    pub open spec fn wf(self) -> bool {
        self.active matches Some(a) ==> a.wf()
    }

    /// A lot with nothing under way.
    pub fn new(exit: &Exit) -> (r: State)
        ensures
            r.rel_id@ == exit.rel_id@,
            r.market@ == exit.market_id@,
            r.opened_bits == exit.opened_ts,
            r.active is None,
            !r.latched,
            r.wf(),
    {
        State {
            rel_id: exit.rel_id.clone(),
            market: exit.market_id.clone(),
            opened_bits: exit.opened_ts,
            active: None,
            latched: false,
        }
    }

    /// The key of the lot.
    pub fn key(&self) -> (r: String)
        ensures
            r@ == lot_digest(self.rel_id@, self.opened_bits),
    {
        lot_key(self.rel_id.as_str(), self.opened_bits)
    }

    /// The keys of all lots that its order has reserved.
    pub open spec fn reserves(self) -> Seq<Seq<char>> {
        match self.active {
            Some(a) => lot_keys_of(a.lots()),
            None => Seq::empty(),
        }
    }

    /// The keys of all lots that its order has reserved.
    pub fn reserved_keys(&self) -> (r: Vec<String>)
        ensures
            texts(r@) == self.reserves(),
    {
        match &self.active {
            Some(a) => {
                let v: Vec<Order> = a.members();
                lot_keys(&v)
            },
            None => {
                let v: Vec<String> = Vec::new();
                assert(texts(v@) =~= Seq::<Seq<char>>::empty());
                v
            },
        }
    }

    /// The key of the group that rests here, if one does.
    pub fn passive_key(&self) -> (r: Option<String>)
        ensures
            match self.active {
                Some(a) => if a.order.cross is None {
                    r matches Some(k) && k@ == group_terms(a.order)
                } else {
                    r is None
                },
                None => r is None,
            },
    {
        match &self.active {
            Some(a) => if a.order.cross.is_none() {
                Some(group_key(&a.order))
            } else {
                None
            },
            None => None,
        }
    }

    /// The contracts of the closing ladder that the resting order still speaks
    /// for: its full quantity while nothing has filled.
    pub fn passive_claim(&self) -> (r: Option<(String, i64)>)
        ensures
            match self.active {
                Some(a) => if a.order.cross is None && a.filled is None {
                    r matches Some((k, q)) && k@ == depth_key(
                        a.order.direction,
                        a.order.shape,
                        a.order.closes_on()@,
                    ) && q == a.order.qty
                } else {
                    r is None
                },
                None => r is None,
            },
    {
        match &self.active {
            Some(a) => if a.order.cross.is_none() && a.filled.is_none() {
                Some(
                    (
                        close_depth_key(
                            a.order.direction,
                            a.order.shape,
                            a.order.market.as_str(),
                            a.order.pm_market.as_str(),
                        ),
                        a.order.qty,
                    ),
                )
            } else {
                None
            },
            None => None,
        }
    }

    /// The sides that the entry quoters are asked to yield to a lot: while it has
    /// an order out, those that its exit might rest and those that it might lift.
    pub fn yields(&self) -> (r: Vec<MarketSide>)
        ensures
            match self.active {
                Some(a) => {
                    let (k, p) = (a.order.market@, a.order.pm_market@);
                    &&& r@.len() == 4
                    &&& spells(r@[0], (k, own_side(a.order.direction, Venue::Kalshi).name()))
                    &&& spells(r@[1], (p, own_side(a.order.direction, Venue::PolymarketUs).name()))
                    &&& spells(r@[2], (k, far_side(a.order.direction, Venue::Kalshi).name()))
                    &&& spells(r@[3], (p, far_side(a.order.direction, Venue::PolymarketUs).name()))
                },
                None => r@.len() == 0,
            },
    {
        match &self.active {
            Some(a) => {
                let (k, p): (&str, &str) = (a.order.market.as_str(), a.order.pm_market.as_str());
                let mut v: Vec<MarketSide> = candidate_keys_for(k, p, a.order.direction);
                let mut w: Vec<MarketSide> = cross_keys_for(k, p, a.order.direction);
                v.append(&mut w);
                v
            },
            None => Vec::new(),
        }
    }

    /// Asks for the order to come off, so that it may rest again with others.
    pub fn request_regroup(&mut self)
        ensures
            final(self).wf() == old(self).wf(),
            match old(self).active {
                Some(a) => *final(self) == (State {
                    active: Some(Active { regroup: true, ..a }),
                    ..*old(self)
                }),
                None => *final(self) == *old(self),
            },
    {
        match self.active.take() {
            Some(mut a) => {
                a.regroup = true;
                self.active = Some(a);
            },
            None => {},
        }
    }

    /// Whether this is the lot of a candidate.
    pub fn is_of(&self, exit: &Exit) -> (r: bool)
        ensures
            r == (self.rel_id@ == exit.rel_id@ && self.opened_bits == exit.opened_ts),
    {
        same(self.rel_id.as_str(), exit.rel_id.as_str()) && self.opened_bits == exit.opened_ts
    }

    /// The PM-US market of what is under way.
    pub fn pm_market(&self) -> (r: Option<&str>)
        ensures
            match self.active {
                Some(a) => r matches Some(m) && m@ == a.order.pm_market@,
                None => r is None,
            },
    {
        match &self.active {
            Some(a) => Some(a.order.pm_market.as_str()),
            None => None,
        }
    }

    /// Whether anything is under way.
    pub fn busy(&self) -> (r: bool)
        ensures
            r == (self.active is Some),
    {
        self.active.is_some()
    }

    /// Stops new exits; says whether that is new.
    pub fn latch(&mut self) -> (r: bool)
        ensures
            r == !old(self).latched,
            *final(self) == (State { latched: true, ..*old(self) }),
    {
        let fresh: bool = !self.latched;
        self.latched = true;
        fresh
    }

    /// Stops new exits no more; says whether that is new.
    pub fn unlatch(&mut self) -> (r: bool)
        ensures
            r == old(self).latched,
            *final(self) == (State { latched: false, ..*old(self) }),
    {
        let was: bool = self.latched;
        self.latched = false;
        was
    }

    /// Whether the state keeps its invariant, for one that was read back.
    pub fn is_sound(&self) -> (r: bool)
        ensures
            r == self.wf(),
    {
        match &self.active {
            None => true,
            Some(a) => is_sound_active(a),
        }
    }
}

fn is_tradable(members: &Vec<Order>) -> (r: bool)
    ensures
        r == tradable(members@),
{
    let mut i: usize = 0;
    while i < members.len()
        invariant
            i <= members.len(),
            forall|k: int| 0 <= k < i ==> qty_ok((#[trigger] members@[k]).qty),
        decreases members.len() - i,
    {
        if members[i].qty < 1 || members[i].qty > QTY_MAX {
            assert(!qty_ok(members@[i as int].qty));
            return false;
        }
        i = i + 1;
    }
    true
}

proof fn lemma_reserved_total(members: Seq<Order>, n: nat, m: nat)
    requires
        tradable(members),
        n <= m <= members.len(),
    ensures
        0 <= reserved(members, n) <= reserved(members, m),
    decreases m,
{
    if n < m {
        lemma_reserved_total(members, n, (m - 1) as nat);
    } else if n > 0 {
        lemma_reserved_total(members, (n - 1) as nat, (n - 1) as nat);
    }
}

/// The quantity of the orders, where it does not exceed `max`.
fn total(members: &Vec<Order>, max: i64) -> (r: Option<i64>)
    requires
        tradable(members@),
        0 <= max <= QTY_MAX,
    ensures
        match r {
            Some(t) => t == reserved(members@, members@.len()) && t <= max,
            None => reserved(members@, members@.len()) > max,
        },
{
    let mut sum: i64 = 0;
    let mut i: usize = 0;
    while i < members.len()
        invariant
            i <= members.len(),
            tradable(members@),
            sum == reserved(members@, i as nat),
            0 <= sum <= max <= QTY_MAX,
        decreases members.len() - i,
    {
        assert(qty_ok(members@[i as int].qty));
        sum = sum + members[i].qty;
        proof {
            lemma_reserved_total(members@, (i + 1) as nat, members@.len());
        }
        if sum > max {
            return None;
        }
        i = i + 1;
    }
    Some(sum)
}

fn is_sound_active(a: &Active) -> (r: bool)
    ensures
        r == a.wf(),
{
    if a.order.qty < 1 || a.order.qty > QTY_MAX || a.rest.qty != a.order.qty {
        return false;
    }
    let lots: Vec<Order> = a.members();
    if !is_tradable(&lots) {
        return false;
    }
    match total(&lots, a.order.qty) {
        Some(t) => if t != a.order.qty {
            return false;
        },
        None => {
            return false;
        },
    }
    match a.filled {
        None => a.hedged == 0 && a.hedge.is_none(),
        Some(f) => {
            if !(0 <= a.hedged && a.hedged <= f && f <= a.order.qty) {
                return false;
            }
            match &a.hedge {
                Some(h) => h.qty == f - a.hedged && h.qty >= 1,
                None => true,
            }
        },
    }
}

// ----------------------------------------------------------------- loading

/// Why a state that was read back cannot be used.
#[derive(Clone, Copy, Debug, PartialEq, Eq, Structural)]
pub enum LoadRefusal {
    /// It is kept under another lot's key.
    Identity,
    /// Its lots cannot rest as one.
    Group(GroupRefusal),
    /// Its lots do not make up its order, or are not in order.
    Reservation,
}

/// Whether lots stand oldest first.
pub open spec fn in_order(members: Seq<Order>) -> bool {
    forall|i: int, j: int|
        0 <= i && j == i + 1 && j < members.len() ==> !opened_later(
            (#[trigger] members[i]).closes_ts,
            (#[trigger] members[j]).closes_ts,
        )
}

/// Why a state that was read back cannot be used, if it cannot; `stem` is the
/// key under which it was kept.
pub open spec fn load_refusal(s: State, stem: Seq<char>) -> Option<LoadRefusal> {
    if stem != lot_digest(s.rel_id@, s.opened_bits) {
        Some(LoadRefusal::Identity)
    } else {
        match s.active {
            None => None,
            Some(a) => match aggregated(a.lots()) {
                Err(e) => Some(LoadRefusal::Group(e)),
                Ok(c) => if reserves_well(
                    a,
                    c,
                    group_terms(c),
                    group_terms(a.order),
                    lot_digest(c.rel_id@, c.closes_ts),
                    stem,
                ) {
                    None
                } else {
                    Some(LoadRefusal::Reservation)
                },
            },
        }
    }
}

/// Whether the combination of the lots is the order that rests, of the keys of
/// their groups, of the combination's own lot and of the lot that it is kept
/// for.
pub open spec fn reserves_well(
    a: Active,
    combined: Order,
    group: Seq<char>,
    own_group: Seq<char>,
    lot: Seq<char>,
    own_lot: Seq<char>,
) -> bool {
    &&& combined.qty == a.order.qty
    &&& group == own_group
    &&& lot == own_lot
    &&& in_order(a.lots())
}

fn are_in_order(members: &Vec<Order>) -> (r: bool)
    ensures
        r == in_order(members@),
{
    let mut i: usize = 1;
    while i < members.len()
        invariant
            1 <= i,
            members.len() >= 1 ==> i <= members.len(),
            forall|k: int, j: int|
                0 <= k && j == k + 1 && j < i && j < members@.len() ==> !opened_later(
                    (#[trigger] members@[k]).closes_ts,
                    (#[trigger] members@[j]).closes_ts,
                ),
        decreases members.len() - i,
    {
        if is_opened_later(members[i - 1].closes_ts, members[i].closes_ts) {
            assert(opened_later(members@[i - 1].closes_ts, members@[i as int].closes_ts));
            return false;
        }
        i = i + 1;
    }
    true
}

/// Whether the combination of the lots is the order that rests.
pub fn is_reserved_well(
    a: &Active,
    combined: &Order,
    group: &str,
    own_group: &str,
    lot: &str,
    own_lot: &str,
) -> (r: bool)
    ensures
        r == reserves_well(*a, *combined, group@, own_group@, lot@, own_lot@),
{
    let lots: Vec<Order> = a.members();
    combined.qty == a.order.qty && same(group, own_group) && same(lot, own_lot) && are_in_order(
        &lots,
    )
}

/// Looks a state over that was read back under a key.
pub fn check_loaded(s: &State, stem: &str) -> (r: Option<LoadRefusal>)
    ensures
        r == load_refusal(*s, stem@),
{
    let key: String = s.key();
    if !same(stem, key.as_str()) {
        return Some(LoadRefusal::Identity);
    }
    match &s.active {
        None => None,
        Some(a) => {
            let lots: Vec<Order> = a.members();
            match aggregate(&lots) {
                Err(e) => Some(LoadRefusal::Group(e)),
                Ok(c) => {
                    let lot: String = lot_key(c.rel_id.as_str(), c.closes_ts);
                    if is_reserved_well(
                        a,
                        &c,
                        group_key(&c).as_str(),
                        group_key(&a.order).as_str(),
                        lot.as_str(),
                        stem,
                    ) {
                        None
                    } else {
                        Some(LoadRefusal::Reservation)
                    }
                },
            }
        },
    }
}

} // verus!
