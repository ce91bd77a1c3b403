//! Groups of lots that rest as one order: who may join, and how what fills is
//! shared out, oldest lot first.
use crate::keys::{group_key, group_terms, lot_digest, lot_key, same_terms};
use crate::order::Order;
use crate::text::same;
use vstd::prelude::*;

verus! {

/// Why orders cannot rest as one.
#[derive(Clone, Copy, Debug, PartialEq, Eq, Structural)]
pub enum GroupRefusal {
    Empty,
    /// An order without a quantity, on other terms, or of a lot that is there
    /// already.
    Incompatible,
    /// The quantities come to more than a number holds.
    Overflow,
    /// More than one order, and they cross.
    Crosses,
}

impl GroupRefusal {
    pub open spec fn message(self) -> Seq<char> {
        match self {
            GroupRefusal::Empty => "empty group"@,
            GroupRefusal::Incompatible =>
                "incompatible prices, directions, or duplicate lot reservation"@,
            GroupRefusal::Overflow => "group quantity overflow"@,
            GroupRefusal::Crosses => "crosses are not coalesced"@,
        }
    }

    /// The refusal in words.
    pub fn text(&self) -> (r: String)
        ensures
            r@ == self.message(),
    {
        match self {
            GroupRefusal::Empty => "empty group".to_owned(),
            GroupRefusal::Incompatible =>
                "incompatible prices, directions, or duplicate lot reservation".to_owned(),
            GroupRefusal::Overflow => "group quantity overflow".to_owned(),
            GroupRefusal::Crosses => "crosses are not coalesced".to_owned(),
        }
    }
}

// ---------------------------------------------------------------- combining

/// The quantity of the first `n` orders.
pub open spec fn reserved(members: Seq<Order>, n: nat) -> int
    decreases n,
{
    if n == 0 {
        0
    } else {
        reserved(members, (n - 1) as nat) + members[n - 1].qty
    }
}

/// Whether one of the first `n` texts is `t`.
pub open spec fn taken(texts: Seq<Seq<char>>, n: int, t: Seq<char>) -> bool {
    exists|j: int| 0 <= j < n && #[trigger] texts[j] == t
}

/// Whether the first `n` orders may rest as one, of the keys of their groups
/// and of their lots.
pub open spec fn joins(
    members: Seq<Order>,
    groups: Seq<Seq<char>>,
    lots: Seq<Seq<char>>,
    n: nat,
) -> Result<(), GroupRefusal>
    decreases n,
{
    if n == 0 {
        Ok(())
    } else {
        match joins(members, groups, lots, (n - 1) as nat) {
            Err(e) => Err(e),
            Ok(()) => if members[n - 1].qty < 1 || groups[n - 1] != groups[0] || taken(
                lots,
                n - 1,
                lots[n - 1],
            ) {
                Err(GroupRefusal::Incompatible)
            } else if reserved(members, n) > i64::MAX {
                Err(GroupRefusal::Overflow)
            } else {
                Ok(())
            },
        }
    }
}

/// Whether orders may rest as one, of the keys of their groups and of their
/// lots; where they may, as the first of them for the quantity of all.
pub open spec fn combination(
    members: Seq<Order>,
    groups: Seq<Seq<char>>,
    lots: Seq<Seq<char>>,
) -> Result<Order, GroupRefusal> {
    if members.len() == 0 {
        Err(GroupRefusal::Empty)
    } else {
        match joins(members, groups, lots, members.len()) {
            Err(e) => Err(e),
            Ok(()) => if members.len() > 1 && members[0].cross is Some {
                Err(GroupRefusal::Crosses)
            } else {
                Ok(Order { qty: reserved(members, members.len()) as i64, ..members[0] })
            },
        }
    }
}

/// The texts that strings hold.
pub open spec fn texts(v: Seq<String>) -> Seq<Seq<char>> {
    Seq::new(v.len(), |i: int| v[i]@)
}

proof fn lemma_joins_bound(
    members: Seq<Order>,
    groups: Seq<Seq<char>>,
    lots: Seq<Seq<char>>,
    n: nat,
)
    requires
        joins(members, groups, lots, n) is Ok,
    ensures
        0 <= reserved(members, n) <= i64::MAX,
        forall|i: int| 0 <= i < n ==> (#[trigger] members[i]).qty >= 1,
        forall|i: int| 0 <= i < n ==> #[trigger] groups[i] == groups[0],
        forall|i: int, j: int|
            0 <= i < j < n ==> #[trigger] lots[i] != #[trigger] lots[j],
    decreases n,
{
    if n > 0 {
        lemma_joins_bound(members, groups, lots, (n - 1) as nat);
        assert forall|i: int, j: int| 0 <= i < j < n implies #[trigger] lots[i]
            != #[trigger] lots[j] by {
            if j == n - 1 && lots[i] == lots[j] {
                assert(taken(lots, n - 1, lots[n - 1]));
            }
        }
    }
}

proof fn lemma_joins_err(
    members: Seq<Order>,
    groups: Seq<Seq<char>>,
    lots: Seq<Seq<char>>,
    n: nat,
    m: nat,
)
    requires
        n <= m,
        joins(members, groups, lots, n) is Err,
    ensures
        joins(members, groups, lots, m) == joins(members, groups, lots, n),
    decreases m,
{
    if n < m {
        lemma_joins_err(members, groups, lots, n, (m - 1) as nat);
    }
}

fn is_taken(lots: &Vec<String>, n: usize) -> (r: bool)
    requires
        n < lots@.len(),
    ensures
        r == taken(texts(lots@), n as int, texts(lots@)[n as int]),
{
    let mut j: usize = 0;
    while j < n
        invariant
            j <= n < lots@.len(),
            forall|k: int| 0 <= k < j ==> #[trigger] texts(lots@)[k] != texts(lots@)[n as int],
        decreases n - j,
    {
        if same(lots[j].as_str(), lots[n].as_str()) {
            assert(texts(lots@)[j as int] == texts(lots@)[n as int]);
            return true;
        }
        j = j + 1;
    }
    false
}

/// Combines orders into the one that rests for them, of the keys of their groups
/// and of their lots.
pub fn combine(members: &Vec<Order>, groups: &Vec<String>, lots: &Vec<String>) -> (r: Result<
    Order,
    GroupRefusal,
>)
    requires
        groups@.len() == members@.len(),
        lots@.len() == members@.len(),
    ensures
        r == combination(members@, texts(groups@), texts(lots@)),
{
    if members.len() == 0 {
        return Err(GroupRefusal::Empty);
    }
    let ghost (ms, gs, ls) = (members@, texts(groups@), texts(lots@));
    let mut qty: i64 = 0;
    let mut i: usize = 0;
    while i < members.len()
        invariant
            i <= members.len(),
            groups@.len() == members@.len(),
            lots@.len() == members@.len(),
            ms == members@,
            gs == texts(groups@),
            ls == texts(lots@),
            joins(ms, gs, ls, i as nat) is Ok,
            qty == reserved(ms, i as nat),
            0 <= qty,
        decreases members.len() - i,
    {
        proof {
            if joins(ms, gs, ls, (i + 1) as nat) is Err {
                lemma_joins_err(ms, gs, ls, (i + 1) as nat, ms.len());
            }
        }
        if members[i].qty < 1 || !same(groups[i].as_str(), groups[0].as_str()) || is_taken(lots, i) {
            return Err(GroupRefusal::Incompatible);
        }
        if qty > i64::MAX - members[i].qty {
            return Err(GroupRefusal::Overflow);
        }
        qty = qty + members[i].qty;
        i = i + 1;
    }
    if members.len() > 1 && members[0].cross.is_some() {
        return Err(GroupRefusal::Crosses);
    }
    let mut order: Order = members[0].clone();
    order.qty = qty;
    Ok(order)
}

/// The keys of the groups that orders belong to.
pub open spec fn group_keys_of(members: Seq<Order>) -> Seq<Seq<char>> {
    Seq::new(members.len(), |i: int| group_terms(members[i]))
}

/// The keys of the lots that orders belong to.
pub open spec fn lot_keys_of(members: Seq<Order>) -> Seq<Seq<char>> {
    Seq::new(members.len(), |i: int| lot_digest(members[i].rel_id@, members[i].closes_ts))
}

/// Whether orders may rest as one, and as which.
pub open spec fn aggregated(members: Seq<Order>) -> Result<Order, GroupRefusal> {
    combination(members, group_keys_of(members), lot_keys_of(members))
}

/// The keys of the groups that orders belong to.
fn group_keys(members: &Vec<Order>) -> (r: Vec<String>)
    ensures
        r@.len() == members@.len(),
        texts(r@) == group_keys_of(members@),
        forall|i: int, o: Order|
            0 <= i < members@.len() ==> (#[trigger] group_terms(o) == #[trigger] texts(r@)[i]
                <==> same_terms(members@[i], o)),
{
    let mut v: Vec<String> = Vec::new();
    let mut i: usize = 0;
    while i < members.len()
        invariant
            i <= members.len(),
            v@.len() == i,
            forall|k: int| 0 <= k < i ==> #[trigger] texts(v@)[k] == group_terms(members@[k]),
            forall|k: int, o: Order|
                0 <= k < i ==> (#[trigger] group_terms(o) == #[trigger] texts(v@)[k]
                    <==> same_terms(members@[k], o)),
        decreases members.len() - i,
    {
        let ghost done = v@;
        v.push(group_key(&members[i]));
        proof {
            assert forall|k: int| 0 <= k <= i implies #[trigger] texts(v@)[k] == group_terms(
                members@[k],
            ) by {
                if k < i {
                    assert(texts(v@)[k] == texts(done)[k]);
                }
            }
            assert forall|k: int, o: Order| 0 <= k <= i implies (#[trigger] group_terms(o)
                == #[trigger] texts(v@)[k] <==> same_terms(members@[k], o)) by {
                if k < i {
                    assert(texts(v@)[k] == texts(done)[k]);
                }
            }
        }
        i = i + 1;
    }
    assert(texts(v@) =~= group_keys_of(members@));
    v
}

/// The keys of the lots that orders belong to.
pub fn lot_keys(members: &Vec<Order>) -> (r: Vec<String>)
    ensures
        r@.len() == members@.len(),
        texts(r@) == lot_keys_of(members@),
{
    let mut v: Vec<String> = Vec::new();
    let mut i: usize = 0;
    while i < members.len()
        invariant
            i <= members.len(),
            v@.len() == i,
            forall|k: int|
                0 <= k < i ==> #[trigger] texts(v@)[k] == lot_digest(
                    members@[k].rel_id@,
                    members@[k].closes_ts,
                ),
        decreases members.len() - i,
    {
        let ghost done = v@;
        v.push(lot_key(members[i].rel_id.as_str(), members[i].closes_ts));
        proof {
            assert forall|k: int| 0 <= k <= i implies #[trigger] texts(v@)[k] == lot_digest(
                members@[k].rel_id@,
                members@[k].closes_ts,
            ) by {
                if k < i {
                    assert(texts(v@)[k] == texts(done)[k]);
                }
            }
        }
        i = i + 1;
    }
    assert(texts(v@) =~= lot_keys_of(members@));
    v
}

/// Combines orders into the one that rests for them. Those that it combines
/// trade on identical terms, each has a quantity, and no two are of one lot.
pub fn aggregate(members: &Vec<Order>) -> (r: Result<Order, GroupRefusal>)
    ensures
        r == aggregated(members@),
        r is Ok ==> forall|i: int|
            0 <= i < members@.len() ==> same_terms(#[trigger] members@[i], members@[0]),
{
    let groups: Vec<String> = group_keys(members);
    let lots: Vec<String> = lot_keys(members);
    let r: Result<Order, GroupRefusal> = combine(members, &groups, &lots);
    proof {
        if r is Ok {
            let (ms, gs, ls) = (members@, texts(groups@), texts(lots@));
            lemma_joins_bound(ms, gs, ls, ms.len());
            assert forall|i: int| 0 <= i < ms.len() implies same_terms(#[trigger] ms[i], ms[0]) by {
                assert(gs[i] == gs[0]);
                assert(group_terms(ms[0]) == gs[i]);
            }
        }
    }
    r
}

// ------------------------------------------------------------- sharing out

/// Why fills cannot be shared out.
#[derive(Clone, Copy, Debug, PartialEq, Eq, Structural)]
pub enum ShareRefusal {
    Negative,
    /// More filled than was reserved.
    Exceeds,
}

impl ShareRefusal {
    pub open spec fn message(self) -> Seq<char> {
        match self {
            ShareRefusal::Negative => "negative fill allocation"@,
            ShareRefusal::Exceeds => "fills exceed reserved group inventory"@,
        }
    }

    /// The refusal in words.
    pub fn text(&self) -> (r: String)
        ensures
            r@ == self.message(),
    {
        match self {
            ShareRefusal::Negative => "negative fill allocation".to_owned(),
            ShareRefusal::Exceeds => "fills exceed reserved group inventory".to_owned(),
        }
    }
}

/// How much of the fills from the `from`th contract up to the `to`th falls to
/// the order at `i`: what they have in common with its own contracts, the orders
/// standing one behind the other.
pub open spec fn share(members: Seq<Order>, i: int, from: int, to: int) -> int {
    let lo = if reserved(members, i as nat) > from {
        reserved(members, i as nat)
    } else {
        from
    };
    let hi = if reserved(members, (i + 1) as nat) < to {
        reserved(members, (i + 1) as nat)
    } else {
        to
    };
    if hi > lo {
        hi - lo
    } else {
        0
    }
}

/// The places among the first `n` orders to which fills fall.
pub open spec fn sharers(members: Seq<Order>, from: int, to: int, n: nat) -> Seq<int>
    decreases n,
{
    if n == 0 {
        Seq::empty()
    } else {
        let rest = sharers(members, from, to, (n - 1) as nat);
        if share(members, n - 1, from, to) > 0 {
            rest.push(n - 1)
        } else {
            rest
        }
    }
}

/// Orders of which none is for less than nothing.
pub open spec fn not_negative(members: Seq<Order>) -> bool {
    forall|i: int| 0 <= i < members.len() ==> (#[trigger] members[i]).qty >= 0
}

/// Orders that have a quantity each.
pub open spec fn with_quantity(members: Seq<Order>) -> bool {
    forall|i: int| 0 <= i < members.len() ==> (#[trigger] members[i]).qty >= 1
}

/// Whether parts are the shares of the orders in fills, in order.
pub open spec fn shared_out(
    parts: Seq<(usize, Order)>,
    members: Seq<Order>,
    from: int,
    to: int,
    n: nat,
) -> bool {
    let at = sharers(members, from, to, n);
    &&& parts.len() == at.len()
    &&& forall|k: int|
        0 <= k < parts.len() ==> {
            let (i, part) = #[trigger] parts[k];
            &&& i == at[k]
            &&& 0 <= i < n
            &&& part == (Order { qty: share(members, at[k], from, to) as i64, ..members[at[k]] })
        }
}

proof fn lemma_reserved_grows(members: Seq<Order>, n: nat, m: nat)
    requires
        not_negative(members),
        n <= m <= members.len(),
    ensures
        0 <= reserved(members, n) <= reserved(members, m),
    decreases m,
{
    if n < m {
        lemma_reserved_grows(members, n, (m - 1) as nat);
    } else if n > 0 {
        lemma_reserved_grows(members, (n - 1) as nat, (n - 1) as nat);
    }
}

/// Shares fills out over the orders that they were reserved for, oldest first:
/// `qty` contracts behind the first `offset` ones.
pub fn allocate(members: &Vec<Order>, offset: i64, qty: i64) -> (r: Result<
    Vec<(usize, Order)>,
    ShareRefusal,
>)
    requires
        not_negative(members@),
    ensures
        if offset < 0 || qty < 0 {
            r == Err::<Vec<(usize, Order)>, ShareRefusal>(ShareRefusal::Negative)
        } else if offset + qty > reserved(members@, members@.len()) {
            r == Err::<Vec<(usize, Order)>, ShareRefusal>(ShareRefusal::Exceeds)
        } else {
            r matches Ok(parts) && shared_out(
                parts@,
                members@,
                offset as int,
                offset + qty,
                members@.len(),
            )
        },
{
    if offset < 0 || qty < 0 {
        return Err(ShareRefusal::Negative);
    }
    let ghost (ms, from, to) = (members@, offset as int, offset + qty);
    let mut skip_left: i64 = offset;
    let mut left: i64 = qty;
    let mut out: Vec<(usize, Order)> = Vec::new();
    let mut i: usize = 0;
    while i < members.len()
        invariant
            i <= members.len(),
            not_negative(members@),
            ms == members@,
            from == offset,
            to == offset + qty,
            0 <= offset,
            0 <= qty,
            0 <= skip_left <= offset,
            0 <= left <= qty,
            0 <= reserved(ms, i as nat),
            skip_left == (if from > reserved(ms, i as nat) {
                from - reserved(ms, i as nat)
            } else {
                0
            }),
            left == (if reserved(ms, i as nat) <= from {
                qty as int
            } else if reserved(ms, i as nat) < to {
                to - reserved(ms, i as nat)
            } else {
                0
            }),
            shared_out(out@, ms, from, to, i as nat),
        decreases members.len() - i,
    {
        let own: i64 = members[i].qty;
        let skip: i64 = if skip_left < own {
            skip_left
        } else {
            own
        };
        skip_left = skip_left - skip;
        let take: i64 = if left < own - skip {
            left
        } else {
            own - skip
        };
        assert(reserved(ms, (i + 1) as nat) == reserved(ms, i as nat) + own);
        assert(take == share(ms, i as int, from, to));
        let ghost before = out@;
        if take > 0 {
            let mut part: Order = members[i].clone();
            part.qty = take;
            out.push((i, part));
            left = left - take;
        }
        proof {
            let at = sharers(ms, from, to, (i + 1) as nat);
            assert forall|k: int| 0 <= k < out@.len() implies ({
                let (j, part) = #[trigger] out@[k];
                &&& j == at[k]
                &&& 0 <= j < i + 1
                &&& part == (Order { qty: share(ms, at[k], from, to) as i64, ..ms[at[k]] })
            }) by {
                if k < before.len() {
                    assert(out@[k] == before[k]);
                }
            }
        }
        i = i + 1;
    }
    if left != 0 || skip_left != 0 {
        return Err(ShareRefusal::Exceeds);
    }
    Ok(out)
}

// --------------------------------------------------------------------- laws

/// The total of the shares of the first `n` orders.
pub open spec fn shares(members: Seq<Order>, from: int, to: int, n: nat) -> int
    decreases n,
{
    if n == 0 {
        0
    } else {
        shares(members, from, to, (n - 1) as nat) + share(members, n - 1, from, to)
    }
}

proof fn lemma_shares(members: Seq<Order>, from: int, to: int, n: nat)
    requires
        not_negative(members),
        n <= members.len(),
        0 <= from <= to,
    ensures
        shares(members, from, to, n) == (if reserved(members, n) <= from {
            0
        } else if reserved(members, n) < to {
            reserved(members, n) - from
        } else {
            to - from
        }),
        0 <= reserved(members, n),
    decreases n,
{
    if n > 0 {
        lemma_shares(members, from, to, (n - 1) as nat);
    }
}

/// What is shared out comes to what filled: no contract is lost and none is made
/// up.
pub proof fn law_shares_come_to_what_filled(members: Seq<Order>, from: int, to: int)
    requires
        not_negative(members),
        0 <= from <= to <= reserved(members, members.len()),
    ensures
        shares(members, from, to, members.len()) == to - from,
{
    lemma_shares(members, from, to, members.len());
}

/// Fills that are shared out in two steps fall to the same lots as in one, so a
/// close that is retried shares out what was left and nothing twice; and no lot
/// is given more than it reserved.
pub proof fn law_fills_are_shared_once(
    members: Seq<Order>,
    i: int,
    from: int,
    mid: int,
    to: int,
)
    requires
        not_negative(members),
        0 <= i < members.len(),
        0 <= from <= mid <= to,
    ensures
        share(members, i, from, mid) + share(members, i, mid, to) == share(members, i, from, to),
        0 <= share(members, i, from, to) <= members[i].qty,
{
    lemma_reserved_grows(members, i as nat, (i + 1) as nat);
}

/// The oldest lot is closed first: fills reach a lot only once every older one
/// has been filled.
pub proof fn law_the_oldest_lot_fills_first(members: Seq<Order>, i: int, j: int, to: int)
    requires
        not_negative(members),
        0 <= i < j < members.len(),
        0 <= to,
        share(members, j, 0, to) > 0,
    ensures
        share(members, i, 0, to) == members[i].qty,
{
    lemma_reserved_grows(members, i as nat, (i + 1) as nat);
    lemma_reserved_grows(members, (i + 1) as nat, j as nat);
}

/// A group that rests has the quantity of its lots together, at least one each
/// and no lot twice.
pub proof fn law_a_group_reserves_its_lots(members: Seq<Order>, o: Order)
    requires
        aggregated(members) == Ok::<Order, GroupRefusal>(o),
    ensures
        o.qty == reserved(members, members.len()),
        1 <= o.qty,
        o == (Order { qty: o.qty, ..members[0] }),
        with_quantity(members),
        forall|i: int, j: int|
            0 <= i < j < members.len() ==> #[trigger] lot_keys_of(members)[i]
                != #[trigger] lot_keys_of(members)[j],
        members.len() > 1 ==> o.cross is None,
{
    let (gs, ls) = (group_keys_of(members), lot_keys_of(members));
    lemma_joins_bound(members, gs, ls, members.len());
    lemma_reserved_grows(members, 1, members.len());
    assert(reserved(members, 1) == members[0].qty) by {
        reveal_with_fuel(reserved, 2);
    }
}

} // verus!
