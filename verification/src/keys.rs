//! How lots and groups of lots are told apart, and the order in which lots age.
use crate::decimal::{
    decimal_value, law_a_number_has_one_text, lemma_standard_reads, read, standard,
};
use crate::digits::pow10;
use crate::order::Order;
use crate::text::{
    before, digit_char, lemma_before_irreflexive, lemma_before_total, lemma_before_transitive,
    sorts_before,
};
use crate::venue::law_tags_differ;
use sha2::{Digest, Sha256};
use vstd::prelude::*;
use vstd::string::StringExecFns;
use vstd::utf8::encode_utf8;

verus! {

// ---------------------------------------------------------------- lot keys

/// The digest that SHA-256 gives for a sequence of bytes.
pub uninterp spec fn sha256_of(data: Seq<u8>) -> Seq<u8>;

/// `sha2::Sha256::digest`: the digest is a function of the bytes alone, and has
/// 32 of them.
#[verifier::external_body]
fn sha256(data: &Vec<u8>) -> (r: Vec<u8>)
    ensures
        r@ == sha256_of(data@),
        r@.len() == 32,
{
    Sha256::digest(data).to_vec()
}

/// The bytes of a number, the most significant one first.
pub open spec fn be_bytes(n: u64) -> Seq<u8> {
    seq![
        (n / 0x100_0000_0000_0000 % 0x100) as u8,
        (n / 0x1_0000_0000_0000 % 0x100) as u8,
        (n / 0x100_0000_0000 % 0x100) as u8,
        (n / 0x1_0000_0000 % 0x100) as u8,
        (n / 0x100_0000 % 0x100) as u8,
        (n / 0x1_0000 % 0x100) as u8,
        (n / 0x100 % 0x100) as u8,
        (n % 0x100) as u8,
    ]
}

fn push_be_bytes(v: &mut Vec<u8>, n: u64)
    ensures
        final(v)@ == old(v)@ + be_bytes(n),
{
    v.push((n / 0x100_0000_0000_0000 % 0x100) as u8);
    v.push((n / 0x1_0000_0000_0000 % 0x100) as u8);
    v.push((n / 0x100_0000_0000 % 0x100) as u8);
    v.push((n / 0x1_0000_0000 % 0x100) as u8);
    v.push((n / 0x100_0000 % 0x100) as u8);
    v.push((n / 0x1_0000 % 0x100) as u8);
    v.push((n / 0x100 % 0x100) as u8);
    v.push((n % 0x100) as u8);
}

/// The hexadecimal digit of a number below sixteen.
pub open spec fn hex_char(d: int) -> char {
    if d < 10 {
        digit_char(d)
    } else {
        ('a' as u32 + (d - 10)) as char
    }
}

/// Bytes in lower-case hexadecimal, two digits each.
pub open spec fn hex_of(bytes: Seq<u8>) -> Seq<char>
    decreases bytes.len(),
{
    if bytes.len() == 0 {
        Seq::empty()
    } else {
        hex_of(bytes.drop_last()).push(hex_char(bytes.last() as int / 16)).push(
            hex_char(bytes.last() as int % 16),
        )
    }
}

fn hex_str(d: u8) -> (r: &'static str)
    requires
        d < 16,
    ensures
        r@ == seq![hex_char(d as int)],
{
    proof {
        reveal_strlit("0");
        reveal_strlit("1");
        reveal_strlit("2");
        reveal_strlit("3");
        reveal_strlit("4");
        reveal_strlit("5");
        reveal_strlit("6");
        reveal_strlit("7");
        reveal_strlit("8");
        reveal_strlit("9");
        reveal_strlit("a");
        reveal_strlit("b");
        reveal_strlit("c");
        reveal_strlit("d");
        reveal_strlit("e");
        reveal_strlit("f");
    }
    match d {
        0 => "0",
        1 => "1",
        2 => "2",
        3 => "3",
        4 => "4",
        5 => "5",
        6 => "6",
        7 => "7",
        8 => "8",
        9 => "9",
        10 => "a",
        11 => "b",
        12 => "c",
        13 => "d",
        14 => "e",
        _ => "f",
    }
}

/// Bytes in lower-case hexadecimal.
pub fn hex(bytes: &Vec<u8>) -> (r: String)
    ensures
        r@ == hex_of(bytes@),
{
    let mut s: String = String::new();
    let mut i: usize = 0;
    assert(bytes@.take(0) =~= Seq::<u8>::empty());
    while i < bytes.len()
        invariant
            i <= bytes.len(),
            s@ == hex_of(bytes@.take(i as int)),
        decreases bytes.len() - i,
    {
        let ghost done = bytes@.take(i as int);
        let ghost next = bytes@.take(i + 1);
        s.append(hex_str(bytes[i] / 16));
        s.append(hex_str(bytes[i] % 16));
        assert(next.drop_last() =~= done);
        assert(s@ =~= hex_of(next));
        i = i + 1;
    }
    assert(bytes@.take(bytes@.len() as int) =~= bytes@);
    s
}

/// What the key of a lot is made of: the name of its relationship and the bits
/// of the time at which it was opened.
pub open spec fn lot_bytes(rel: Seq<char>, opened_bits: u64) -> Seq<u8> {
    encode_utf8(rel) + be_bytes(opened_bits)
}

/// The key of a lot.
pub open spec fn lot_digest(rel: Seq<char>, opened_bits: u64) -> Seq<char> {
    hex_of(sha256_of(lot_bytes(rel, opened_bits)))
}

/// The key of a lot, under which it is kept.
pub fn lot_key(rel: &str, opened_bits: u64) -> (r: String)
    ensures
        r@ == lot_digest(rel@, opened_bits),
{
    let mut bytes: Vec<u8> = Vec::new();
    let raw: &[u8] = rel.as_bytes();
    bytes.extend_from_slice(raw);
    assert(bytes@ =~= encode_utf8(rel@));
    push_be_bytes(&mut bytes, opened_bits);
    hex(&sha256(&bytes))
}

// -------------------------------------------------------------- group keys

/// The text that `serde_json` writes for a tuple of these six values.
pub uninterp spec fn terms_text(
    market: Seq<char>,
    pm_market: Seq<char>,
    tag: Seq<char>,
    direction: Seq<char>,
    price: Seq<char>,
    crossed: Option<u64>,
) -> Seq<char>;

/// `serde_json::to_string` of a tuple of five strings and an optional number:
/// the text is a function of the six values alone, and no other six values give
/// it, as each string is quoted with its quotes and backslashes escaped, a
/// number is written in decimal, and nothing as `null`.
#[verifier::external_body]
fn terms_json(
    market: &str,
    pm_market: &str,
    tag: &str,
    direction: &str,
    price: &str,
    crossed: Option<u64>,
) -> (r: String)
    ensures
        r@ == terms_text(market@, pm_market@, tag@, direction@, price@, crossed),
        forall|a: Seq<char>, b: Seq<char>, c: Seq<char>, d: Seq<char>, e: Seq<char>, f: Option<u64>|
            #[trigger] terms_text(a, b, c, d, e, f) == r@ ==> a == market@ && b == pm_market@ && c
                == tag@ && d == direction@ && e == price@ && f == crossed,
{
    serde_json::to_string(&(market, pm_market, tag, direction, price, crossed)).unwrap()
}

/// A price as a group key has it: in decimal notation without zeros at its
/// end, or as it stands where it is no number.
pub open spec fn price_text(limit: Seq<char>) -> Seq<char> {
    match decimal_value(limit) {
        Some((n, k)) => standard(n, k),
        None => limit,
    }
}

/// Whether two prices are the same number; what is none is the same as itself.
pub open spec fn same_price(a: Seq<char>, b: Seq<char>) -> bool {
    match (decimal_value(a), decimal_value(b)) {
        (Some(x), Some(y)) => x.0 * pow10(y.1) == y.0 * pow10(x.1),
        (None, None) => a == b,
        _ => false,
    }
}

/// A price has one text: two are written alike exactly where they are the same,
/// however many digits they have and zeros they end with.
pub proof fn law_a_price_has_one_text(a: Seq<char>, b: Seq<char>)
    ensures
        price_text(a) == price_text(b) <==> same_price(a, b),
{
    match (decimal_value(a), decimal_value(b)) {
        (Some(x), Some(y)) => {
            law_a_number_has_one_text(x, y);
        },
        (Some(x), None) => {
            lemma_standard_reads(x.0, x.1);
        },
        (None, Some(y)) => {
            lemma_standard_reads(y.0, y.1);
        },
        (None, None) => {},
    }
}

/// What sets an order that crosses apart: the bits of its lot's opening time.
pub open spec fn crossed_lot(o: Order) -> Option<u64> {
    match o.cross {
        Some(_) => Some(o.closes_ts),
        None => None,
    }
}

/// The key of the group that an order belongs to.
pub open spec fn group_terms(o: Order) -> Seq<char> {
    terms_text(
        o.market@,
        o.pm_market@,
        o.shape.tag_text(),
        o.direction.name(),
        price_text(o.limit@),
        crossed_lot(o),
    )
}

/// Whether two orders trade on identical terms: the same markets, the same leg
/// resting, the same direction and the same price; one that crosses shares its
/// terms only with its own lot.
pub open spec fn same_terms(a: Order, b: Order) -> bool {
    &&& a.market@ == b.market@
    &&& a.pm_market@ == b.pm_market@
    &&& a.shape == b.shape
    &&& a.direction == b.direction
    &&& same_price(a.limit@, b.limit@)
    &&& crossed_lot(a) == crossed_lot(b)
}

proof fn lemma_terms_are_the_same(a: Order, b: Order)
    requires
        a.market@ == b.market@,
        a.pm_market@ == b.pm_market@,
        a.shape.tag_text() == b.shape.tag_text(),
        a.direction.name() == b.direction.name(),
        price_text(a.limit@) == price_text(b.limit@),
        crossed_lot(a) == crossed_lot(b),
    ensures
        same_terms(a, b),
{
    law_tags_differ(a.shape, b.shape);
    law_a_price_has_one_text(a.limit@, b.limit@);
    reveal_strlit("Standard");
    reveal_strlit("Inverse");
    assert("Standard"@.len() == 8);
    assert("Inverse"@.len() == 7);
}

/// The key of the group that an order belongs to. Orders share a key exactly
/// where they trade on identical terms.
pub fn group_key(o: &Order) -> (r: String)
    ensures
        r@ == group_terms(*o),
        forall|other: Order| #[trigger] group_terms(other) == r@ <==> same_terms(*o, other),
{
    let price: String = match read(o.limit.as_str()) {
        Some(p) => p.text(),
        None => o.limit.clone(),
    };
    let crossed: Option<u64> = if o.cross.is_some() {
        Some(o.closes_ts)
    } else {
        None
    };
    let r: String = terms_json(
        o.market.as_str(),
        o.pm_market.as_str(),
        o.shape.tag(),
        o.direction.as_str(),
        price.as_str(),
        crossed,
    );
    proof {
        assert forall|other: Order| #[trigger] group_terms(other) == r@ <==> same_terms(
            *o,
            other,
        ) by {
            law_a_price_has_one_text(o.limit@, other.limit@);
            if group_terms(other) == r@ {
                lemma_terms_are_the_same(*o, other);
            }
        }
    }
    r
}

// ------------------------------------------------------------------ ageing

/// The place of a floating-point number's bits in the total order of such
/// numbers.
pub open spec fn age_rank(bits: u64) -> int {
    if bits >= 0x8000_0000_0000_0000 {
        u64::MAX - bits
    } else {
        bits + 0x8000_0000_0000_0000
    }
}

/// Whether a lot is older than another: opened before it, or with it and first
/// by name.
pub open spec fn older(a: Order, b: Order) -> bool {
    ||| age_rank(a.closes_ts) < age_rank(b.closes_ts)
    ||| age_rank(a.closes_ts) == age_rank(b.closes_ts) && before(a.rel_id@, b.rel_id@)
}

fn rank(bits: u64) -> (r: u64)
    ensures
        r == age_rank(bits),
{
    if bits >= 0x8000_0000_0000_0000 {
        u64::MAX - bits
    } else {
        bits + 0x8000_0000_0000_0000
    }
}

/// Whether a lot is older than another.
pub fn is_older(a: &Order, b: &Order) -> (r: bool)
    ensures
        r == older(*a, *b),
{
    let (x, y): (u64, u64) = (rank(a.closes_ts), rank(b.closes_ts));
    x < y || (x == y && sorts_before(a.rel_id.as_str(), b.rel_id.as_str()))
}

/// Where an order goes among sorted ones: before the first that is younger.
pub open spec fn slot(sorted: Seq<Order>, o: Order) -> int
    decreases sorted.len(),
{
    if sorted.len() == 0 || older(o, sorted[0]) {
        0
    } else {
        1 + slot(sorted.drop_first(), o)
    }
}

/// The orders, oldest lot first; those of equal age keep their places.
pub open spec fn oldest_first(s: Seq<Order>) -> Seq<Order>
    decreases s.len(),
{
    if s.len() == 0 {
        Seq::empty()
    } else {
        let t = oldest_first(s.drop_last());
        t.insert(slot(t, s.last()), s.last())
    }
}

proof fn lemma_slot_at(s: Seq<Order>, o: Order, k: int)
    requires
        0 <= k <= s.len(),
        forall|i: int| 0 <= i < k ==> !older(o, #[trigger] s[i]),
        k < s.len() ==> older(o, s[k]),
    ensures
        slot(s, o) == k,
    decreases s.len(),
{
    if k > 0 {
        assert(!older(o, s[0]));
        assert forall|i: int| 0 <= i < k - 1 implies !older(o, #[trigger] s.drop_first()[i]) by {
            assert(s.drop_first()[i] == s[i + 1]);
        }
        lemma_slot_at(s.drop_first(), o, k - 1);
    }
}

proof fn lemma_slot(s: Seq<Order>, o: Order)
    ensures
        0 <= slot(s, o) <= s.len(),
        forall|i: int| 0 <= i < slot(s, o) ==> !older(o, #[trigger] s[i]),
        slot(s, o) < s.len() ==> older(o, s[slot(s, o)]),
    decreases s.len(),
{
    if s.len() > 0 && !older(o, s[0]) {
        lemma_slot(s.drop_first(), o);
        assert forall|i: int| 0 <= i < slot(s, o) implies !older(o, #[trigger] s[i]) by {
            if i > 0 {
                assert(s[i] == s.drop_first()[i - 1]);
            }
        }
    }
}

/// Sorts orders by the age of their lots, oldest first.
pub fn sort_oldest_first(members: &Vec<Order>) -> (r: Vec<Order>)
    ensures
        r@ == oldest_first(members@),
{
    let mut out: Vec<Order> = Vec::new();
    let mut n: usize = 0;
    assert(members@.take(0) =~= Seq::<Order>::empty());
    while n < members.len()
        invariant
            n <= members.len(),
            out@ == oldest_first(members@.take(n as int)),
        decreases members.len() - n,
    {
        let ghost sofar = members@.take(n as int);
        let ghost next = members@.take(n + 1);
        let o: Order = members[n].clone();
        let mut k: usize = 0;
        while k < out.len() && !is_older(&o, &out[k])
            invariant
                k <= out.len(),
                forall|i: int| 0 <= i < k ==> !older(o, #[trigger] out@[i]),
            decreases out.len() - k,
        {
            k = k + 1;
        }
        proof {
            lemma_slot_at(out@, o, k as int);
            assert(next.drop_last() =~= sofar);
            assert(next.last() == o);
        }
        out.insert(k, o);
        n = n + 1;
    }
    assert(members@.take(members@.len() as int) =~= members@);
    out
}

/// Whether a lot was opened at a later time than another, as floating-point
/// numbers compare: what is no number compares with nothing, and the two zeros
/// are equal.
pub open spec fn opened_later(a: u64, b: u64) -> bool {
    &&& !no_number(a)
    &&& !no_number(b)
    &&& !(a % 0x8000_0000_0000_0000 == 0 && b % 0x8000_0000_0000_0000 == 0)
    &&& age_rank(a) > age_rank(b)
}

/// Whether bits are those of no number.
pub open spec fn no_number(bits: u64) -> bool {
    bits % 0x8000_0000_0000_0000 > 0x7ff0_0000_0000_0000
}

/// Whether a time is later than another, of their bits.
pub fn is_opened_later(a: u64, b: u64) -> (r: bool)
    ensures
        r == opened_later(a, b),
{
    let x: u64 = a % 0x8000_0000_0000_0000;
    let y: u64 = b % 0x8000_0000_0000_0000;
    x <= 0x7ff0_0000_0000_0000 && y <= 0x7ff0_0000_0000_0000 && !(x == 0 && y == 0) && rank(a)
        > rank(b)
}

// --------------------------------------------------------------------- laws

proof fn lemma_older_transitive(a: Order, b: Order, c: Order)
    requires
        !older(b, a),
        !older(c, b),
    ensures
        !older(c, a),
{
    if older(c, a) && age_rank(c.closes_ts) == age_rank(a.closes_ts) {
        lemma_before_total(a.rel_id@, b.rel_id@);
        lemma_before_total(b.rel_id@, c.rel_id@);
        lemma_before_irreflexive(a.rel_id@);
        if before(c.rel_id@, a.rel_id@) {
            if before(a.rel_id@, b.rel_id@) {
                lemma_before_transitive(c.rel_id@, a.rel_id@, b.rel_id@);
            }
        }
    }
}

/// Sorting keeps every order as often as it was there, and leaves none before
/// an older one.
pub proof fn law_the_oldest_lot_comes_first(s: Seq<Order>)
    ensures
        oldest_first(s).to_multiset() == s.to_multiset(),
        oldest_first(s).len() == s.len(),
        forall|i: int, j: int|
            0 <= i < j < s.len() ==> !older(
                #[trigger] oldest_first(s)[j],
                #[trigger] oldest_first(s)[i],
            ),
    decreases s.len(),
{
    broadcast use vstd::seq_lib::group_to_multiset_ensures;

    if s.len() > 0 {
        let rest = s.drop_last();
        let o = s.last();
        let t = oldest_first(rest);
        law_the_oldest_lot_comes_first(rest);
        lemma_slot(t, o);
        let k = slot(t, o);
        let r = t.insert(k, o);
        assert(s =~= rest.push(o));
        assert(r.remove(k) =~= t);
        assert(r[k] == o);
        assert(r.contains(o));
        assert(r.to_multiset() =~= t.to_multiset().insert(o));
        assert forall|i: int, j: int| 0 <= i < j < r.len() implies !older(
            #[trigger] r[j],
            #[trigger] r[i],
        ) by {
            if j < k {
                assert(r[i] == t[i] && r[j] == t[j]);
            } else if j == k {
                assert(r[i] == t[i]);
            } else if i == k {
                assert(r[j] == t[j - 1]);
                lemma_older_irreflexive(o, t[k]);
                if j - 1 > k {
                    lemma_older_transitive(o, t[k], t[j - 1]);
                }
            } else if i < k {
                assert(r[i] == t[i] && r[j] == t[j - 1]);
            } else {
                assert(r[i] == t[i - 1] && r[j] == t[j - 1]);
            }
        }
    }
}

proof fn lemma_older_irreflexive(a: Order, b: Order)
    requires
        older(a, b),
    ensures
        !older(b, a),
{
    if older(b, a) {
        lemma_before_transitive(a.rel_id@, b.rel_id@, a.rel_id@);
        lemma_before_irreflexive(a.rel_id@);
    }
}

} // verus!
