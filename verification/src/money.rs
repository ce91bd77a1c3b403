//! Dollars as integers.
//!
//! A price that is found is a whole number of millionths of a dollar, and one
//! that is read a fraction of any length. Totals over a quantity, and fees, are
//! in a finer unit.
use crate::decimal::{fraction_of, lemma_padded_value, lemma_pointed_reads, standard, Decimal};
use crate::digits::{digits_of, pow10};
use crate::text::{numeral, number, padded, padded_number};
use vstd::prelude::*;
use vstd::string::StringExecFns;

verus! {

/// A price in millionths of a dollar.
pub type Px = i64;

/// One dollar.
pub const ONE: i64 = 1_000_000;

/// One cent.
pub const CENT: i64 = 10_000;

/// Fine units in a millionth of a dollar.
pub const FINE: i128 = 10_000_000_000;

/// Fine units in a cent.
pub const FINE_CENT: i128 = 100_000_000_000_000;

/// The largest price of a tick ladder, a hundred dollars.
pub const PX_MAX: i64 = 100_000_000;

/// The largest price at which a fee can be computed.
pub const WIDE_MAX: i64 = 1_000_000_000_000;

/// The largest price that can be rounded.
pub const FAR_MAX: i64 = 9_100_000_000_000_000_000;

/// The largest quantity that the arithmetic takes.
pub const QTY_MAX: i64 = 1_000_000_000;

/// A price within the range of a tick ladder.
pub open spec fn px_ok(p: Px) -> bool {
    -PX_MAX <= p <= PX_MAX
}

/// A price at which a fee can be computed.
pub open spec fn wide_ok(p: Px) -> bool {
    -WIDE_MAX <= p <= WIDE_MAX
}

/// A price that can be rounded.
pub open spec fn far_ok(p: Px) -> bool {
    -FAR_MAX <= p <= FAR_MAX
}

/// A quantity that can trade.
pub open spec fn qty_ok(q: i64) -> bool {
    1 <= q <= QTY_MAX
}

/// Fine units in one price unit of a quantity of contracts.
pub open spec fn unit(qty: i64) -> int {
    qty * FINE
}

// ------------------------------------------------------------------ division

/// The least integer that is not below the quotient.
pub open spec fn ceil_div(a: int, b: int) -> int {
    -((-a) / b)
}

/// The nearest integer to a quotient; a tie goes to the even neighbour.
pub open spec fn nearest(a: int, b: int) -> int {
    let q = a / b;
    let r = a % b;
    if 2 * r < b || (2 * r == b && q % 2 == 0) {
        q
    } else {
        q + 1
    }
}

/// The range in which the divisions below are carried out.
pub const DIV_MAX: i128 = 10_000_000_000_000_000_000_000_000_000_000_000_000;

/// The quotient rounded down.
pub fn floor_quotient(a: i128, b: i128) -> (r: i128)
    requires
        -DIV_MAX <= a <= DIV_MAX,
        0 < b <= DIV_MAX,
    ensures
        r == a as int / b as int,
        -DIV_MAX <= r <= DIV_MAX,
{
    if a >= 0 {
        let q: i128 = a / b;
        proof {
            vstd::arithmetic::div_mod::lemma_div_is_ordered_by_denominator(a as int, 1, b as int);
            vstd::arithmetic::div_mod::lemma_div_pos_is_pos(a as int, b as int);
        }
        q
    } else {
        let m: i128 = -a;
        let q: i128 = m / b;
        let rest: i128 = m % b;
        proof {
            vstd::arithmetic::div_mod::lemma_fundamental_div_mod(m as int, b as int);
            vstd::arithmetic::div_mod::lemma_div_is_ordered_by_denominator(m as int, 1, b as int);
            vstd::arithmetic::div_mod::lemma_div_pos_is_pos(m as int, b as int);
            let q0 = q as int;
            let b0 = b as int;
            let r0 = rest as int;
            assert(b0 * (-q0) == -(b0 * q0)) by (nonlinear_arith);
            assert(b0 * (-q0 - 1) == -(b0 * q0) - b0) by (nonlinear_arith);
            if r0 == 0 {
                vstd::arithmetic::div_mod::lemma_fundamental_div_mod_converse(a as int, b0, -q0, 0);
            } else {
                vstd::arithmetic::div_mod::lemma_fundamental_div_mod_converse(
                    a as int,
                    b0,
                    -q0 - 1,
                    b0 - r0,
                );
                if q0 == DIV_MAX {
                    assert(b0 * q0 >= q0) by (nonlinear_arith)
                        requires
                            b0 >= 1,
                            q0 >= 0,
                    ;
                }
            }
        }
        if rest == 0 {
            -q
        } else {
            -q - 1
        }
    }
}

/// The quotient rounded up.
pub fn ceil_quotient(a: i128, b: i128) -> (r: i128)
    requires
        -DIV_MAX <= a <= DIV_MAX,
        0 < b <= DIV_MAX,
    ensures
        r == ceil_div(a as int, b as int),
        -DIV_MAX <= r <= DIV_MAX,
{
    -floor_quotient(-a, b)
}

/// The quotient rounded to the nearest integer, ties to even.
pub fn nearest_quotient(a: i128, b: i128) -> (r: i128)
    requires
        -DIV_MAX <= a <= DIV_MAX,
        0 < b <= DIV_MAX,
    ensures
        r == nearest(a as int, b as int),
        -DIV_MAX <= r <= DIV_MAX + 1,
{
    let q: i128 = floor_quotient(a, b);
    proof {
        vstd::arithmetic::div_mod::lemma_fundamental_div_mod(a as int, b as int);
        vstd::arithmetic::div_mod::lemma_mod_bound(a as int, b as int);
        assert(b as int * q as int <= a);
        assert(q as int * b as int == b as int * q as int) by (nonlinear_arith);
    }
    let rest: i128 = a - q * b;
    let even: bool = if q >= 0 {
        q % 2 == 0
    } else {
        (-q) % 2 == 0
    };
    assert(even == (q as int % 2 == 0));
    if 2 * rest < b || (2 * rest == b && even) {
        q
    } else {
        q + 1
    }
}

/// The bounds that define the rounded-up quotient.
pub proof fn lemma_ceil_div(a: int, b: int)
    requires
        b > 0,
    ensures
        ceil_div(a, b) * b >= a,
        (ceil_div(a, b) - 1) * b < a,
{
    vstd::arithmetic::div_mod::lemma_fundamental_div_mod(-a, b);
    vstd::arithmetic::div_mod::lemma_mod_bound(-a, b);
    let q = (-a) / b;
    assert((-q) * b == -(b * q)) by (nonlinear_arith);
    assert((-q - 1) * b == -(b * q) - b) by (nonlinear_arith);
}

/// The bounds that define the rounded-down quotient.
pub proof fn lemma_floor_div(a: int, b: int)
    requires
        b > 0,
    ensures
        (a / b) * b <= a,
        a < (a / b + 1) * b,
{
    vstd::arithmetic::div_mod::lemma_fundamental_div_mod(a, b);
    vstd::arithmetic::div_mod::lemma_mod_bound(a, b);
    let q = a / b;
    assert(q * b == b * q) by (nonlinear_arith);
    assert((q + 1) * b == b * q + b) by (nonlinear_arith);
}

/// A quotient rounded to nearest is off by at most half a unit.
pub proof fn lemma_nearest(a: int, b: int)
    requires
        b > 0,
    ensures
        2 * (nearest(a, b) * b - a) <= b,
        2 * (a - nearest(a, b) * b) <= b,
{
    vstd::arithmetic::div_mod::lemma_fundamental_div_mod(a, b);
    vstd::arithmetic::div_mod::lemma_mod_bound(a, b);
    let q = a / b;
    assert(q * b == b * q) by (nonlinear_arith);
    assert((q + 1) * b == b * q + b) by (nonlinear_arith);
}

/// Rounding a whole multiple changes nothing.
pub proof fn lemma_nearest_exact(q: int, b: int)
    requires
        b > 0,
    ensures
        nearest(q * b, b) == q,
{
    vstd::arithmetic::div_mod::lemma_fundamental_div_mod_converse(q * b, b, q, 0);
}

// ------------------------------------------------------------------ rounding

/// A price rounded to the four decimals that the venues take.
pub open spec fn wire(p: Px) -> int {
    nearest(p as int, 100) * 100
}

/// Rounds a price to four decimals.
pub fn to_wire(p: Px) -> (r: Px)
    requires
        far_ok(p),
    ensures
        r == wire(p),
        -50 <= r - p <= 50,
        p % 100 == 0 ==> r == p,
{
    let n: i128 = nearest_quotient(p as i128, 100);
    proof {
        lemma_nearest(p as int, 100);
        if p % 100 == 0 {
            lemma_nearest_exact(p as int / 100, 100);
        }
    }
    (n * 100) as i64
}

/// The largest whole cent at or below a price.
pub open spec fn cent_floor(p: Px) -> int {
    (p as int / CENT as int) * CENT
}

/// Rounds a price down to a whole cent.
pub fn to_cent_floor(p: Px) -> (r: Px)
    requires
        far_ok(p),
    ensures
        r == cent_floor(p),
        r <= p < r + CENT,
{
    let q: i128 = floor_quotient(p as i128, CENT as i128);
    proof {
        lemma_floor_div(p as int, CENT as int);
    }
    (q * CENT as i128) as i64
}

// ----------------------------------------------------------------- notation

/// A number of ten-thousandths in decimal notation with four decimals.
pub open spec fn four_decimals(n: int) -> Seq<char> {
    let m = if n < 0 { (-n) as nat } else { n as nat };
    (if n < 0 { "-"@ } else { ""@ }) + numeral(m / 10_000) + "."@ + padded(m % 10_000, 4)
}

/// A number of millionths in decimal notation with six decimals.
pub open spec fn six_decimals(n: int) -> Seq<char> {
    let m = if n < 0 { (-n) as nat } else { n as nat };
    (if n < 0 { "-"@ } else { ""@ }) + numeral(m / 1_000_000) + "."@ + padded(m % 1_000_000, 6)
}

/// A price in the notation of the wire: four decimals.
pub fn px4(p: Px) -> (r: String)
    requires
        far_ok(p),
    ensures
        r@ == four_decimals(nearest(p as int, 100)),
{
    let n: i128 = nearest_quotient(p as i128, 100);
    proof {
        lemma_nearest(p as int, 100);
    }
    let m: u64 = if n < 0 {
        (-n) as u64
    } else {
        n as u64
    };
    let mut s: String = (if n < 0 {
        "-"
    } else {
        ""
    }).to_owned();
    s.append(number(m / 10_000).as_str());
    s.append(".");
    s.append(padded_number(m % 10_000, 4).as_str());
    s
}

/// A price in the notation of the ledger: six decimals.
pub fn px6(p: Px) -> (r: String)
    ensures
        r@ == six_decimals(p as int),
{
    let m: u64 = if p < 0 {
        (-(p as i128)) as u64
    } else {
        p as u64
    };
    let mut s: String = (if p < 0 {
        "-"
    } else {
        ""
    }).to_owned();
    s.append(number(m / 1_000_000).as_str());
    s.append(".");
    s.append(padded_number(m % 1_000_000, 6).as_str());
    s
}

/// A number of millionths in decimal notation, without zeros at its end.
pub open spec fn plain(n: int) -> Seq<char> {
    standard(n, 6)
}

/// An amount in decimal notation, without zeros at its end.
pub fn plain_text(p: i64) -> (r: String)
    ensures
        r@ == plain(p as int),
{
    let m: u64 = if p < 0 {
        (-(p as i128)) as u64
    } else {
        p as u64
    };
    Decimal { neg: p < 0, mag: digits_of(m), places: 6 }.text()
}

/// A price of four decimals is read as it was written.
pub proof fn law_four_decimals_are_read_back(n: int)
    ensures
        fraction_of(four_decimals(n)) == Some((n, 10_000int)),
{
    reveal_with_fuel(pow10, 5);
    let m = if n < 0 {
        (-n) as nat
    } else {
        n as nat
    };
    lemma_padded_value(m % 10_000, 4);
    lemma_pointed_reads(n < 0, m / 10_000, padded(m % 10_000, 4));
    assert(pow10(4) == 10_000);
    assert((m / 10_000) * pow10(4) == (m / 10_000) * 10_000) by (nonlinear_arith)
        requires
            pow10(4) == 10_000,
    ;
}

/// A price of six decimals is read as it was written.
pub proof fn law_six_decimals_are_read_back(n: int)
    ensures
        fraction_of(six_decimals(n)) == Some((n, 1_000_000int)),
{
    reveal_with_fuel(pow10, 7);
    let m = if n < 0 {
        (-n) as nat
    } else {
        n as nat
    };
    lemma_padded_value(m % 1_000_000, 6);
    lemma_pointed_reads(n < 0, m / 1_000_000, padded(m % 1_000_000, 6));
    assert(pow10(6) == 1_000_000);
    assert((m / 1_000_000) * pow10(6) == (m / 1_000_000) * 1_000_000) by (nonlinear_arith)
        requires
            pow10(6) == 1_000_000,
    ;
}

} // verus!
