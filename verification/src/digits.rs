//! Natural numbers of any length, as decimal digits with the lowest one first.
use vstd::prelude::*;

verus! {

/// Powers of ten.
pub open spec fn pow10(k: nat) -> int
    decreases k,
{
    if k == 0 {
        1
    } else {
        10 * pow10((k - 1) as nat)
    }
}

/// The number that digits come to.
pub open spec fn value(s: Seq<u8>) -> int
    decreases s.len(),
{
    if s.len() == 0 {
        0
    } else {
        s[0] + 10 * value(s.drop_first())
    }
}

/// Whether every entry is a digit.
pub open spec fn digits(s: Seq<u8>) -> bool {
    forall|i: int| 0 <= i < s.len() ==> (#[trigger] s[i]) < 10
}

pub proof fn lemma_pow10_positive(k: nat)
    ensures
        pow10(k) >= 1,
    decreases k,
{
    if k > 0 {
        lemma_pow10_positive((k - 1) as nat);
    }
}

pub proof fn lemma_pow10_sum(a: nat, b: nat)
    ensures
        pow10(a + b) == pow10(a) * pow10(b),
    decreases a,
{
    if a > 0 {
        lemma_pow10_sum((a - 1) as nat, b);
        assert((a + b - 1) as nat == (a - 1) as nat + b);
        let x = pow10((a - 1) as nat);
        let y = pow10(b);
        assert(10 * (x * y) == (10 * x) * y) by (nonlinear_arith);
    }
}

pub proof fn lemma_value_push(s: Seq<u8>, d: u8)
    ensures
        value(s.push(d)) == value(s) + d * pow10(s.len()),
    decreases s.len(),
{
    if s.len() == 0 {
        assert(s.push(d).drop_first() =~= Seq::<u8>::empty());
        assert(value(s.push(d).drop_first()) == 0);
    } else {
        lemma_value_push(s.drop_first(), d);
        assert(s.push(d).drop_first() =~= s.drop_first().push(d));
        let p = pow10((s.len() - 1) as nat);
        assert(10 * (d * p) == d * (10 * p)) by (nonlinear_arith);
    }
}

pub proof fn lemma_value_bound(s: Seq<u8>)
    requires
        digits(s),
    ensures
        0 <= value(s) < pow10(s.len()),
    decreases s.len(),
{
    if s.len() > 0 {
        assert(s[0] < 10);
        lemma_value_bound(s.drop_first());
    }
}

pub proof fn lemma_value_split(s: Seq<u8>, k: nat)
    requires
        k <= s.len(),
    ensures
        value(s) == value(s.take(k as int)) + pow10(k) * value(s.skip(k as int)),
    decreases k,
{
    if k == 0 {
        assert(s.skip(0) =~= s);
        assert(value(s.take(0)) == 0);
    } else {
        let rest = s.drop_first();
        lemma_value_split(rest, (k - 1) as nat);
        assert(s.take(k as int).drop_first() =~= rest.take(k - 1));
        assert(s.skip(k as int) =~= rest.skip(k - 1));
        let p = pow10((k - 1) as nat);
        let v = value(s.skip(k as int));
        assert(10 * (p * v) == (10 * p) * v) by (nonlinear_arith);
    }
}

/// The digit at a place, which is zero past the last one.
pub open spec fn digit(s: Seq<u8>, i: int) -> int {
    if 0 <= i < s.len() {
        s[i] as int
    } else {
        0
    }
}

/// What the lowest `i` digits come to.
pub open spec fn low(s: Seq<u8>, i: int) -> int {
    value(s.take(if i < s.len() {
        i
    } else {
        s.len() as int
    }))
}

proof fn lemma_low(s: Seq<u8>, i: int)
    requires
        digits(s),
        i >= 0,
    ensures
        low(s, 0) == 0,
        low(s, i + 1) == low(s, i) + digit(s, i) * pow10(i as nat),
        0 <= low(s, i) < pow10(i as nat),
        i >= s.len() ==> low(s, i) == value(s),
    decreases i,
{
    assert(value(s.take(0)) == 0);
    assert(s.take(s.len() as int) =~= s);
    let t = s.take(if i < s.len() {
        i
    } else {
        s.len() as int
    });
    lemma_value_bound(t);
    if i < s.len() {
        lemma_value_push(t, s[i]);
        assert(s.take(i + 1) =~= t.push(s[i]));
    } else {
        lemma_pow10_grows(s.len(), i as nat);
        assert(digit(s, i) * pow10(i as nat) == 0) by (nonlinear_arith)
            requires
                digit(s, i) == 0,
        ;
    }
}

proof fn lemma_pow10_grows(a: nat, b: nat)
    requires
        a <= b,
    ensures
        pow10(a) <= pow10(b),
    decreases b,
{
    lemma_pow10_positive(b);
    if a < b {
        lemma_pow10_grows(a, (b - 1) as nat);
        lemma_pow10_positive((b - 1) as nat);
    }
}

fn digit_at(a: &Vec<u8>, i: usize) -> (r: u8)
    requires
        digits(a@),
    ensures
        r == digit(a@, i as int),
        r < 10,
{
    if i < a.len() {
        a[i]
    } else {
        0
    }
}

/// Whether a number is smaller than another.
pub fn less(a: &Vec<u8>, b: &Vec<u8>) -> (r: bool)
    requires
        digits(a@),
        digits(b@),
    ensures
        r == (value(a@) < value(b@)),
{
    let n: usize = if a.len() < b.len() {
        b.len()
    } else {
        a.len()
    };
    let mut r: bool = false;
    let mut i: usize = 0;
    proof {
        lemma_low(a@, 0);
        lemma_low(b@, 0);
    }
    while i < n
        invariant
            digits(a@),
            digits(b@),
            i <= n,
            r == (low(a@, i as int) < low(b@, i as int)),
        decreases n - i,
    {
        let x: u8 = digit_at(a, i);
        let y: u8 = digit_at(b, i);
        proof {
            lemma_low(a@, i as int);
            lemma_low(b@, i as int);
            let p = pow10(i as nat);
            let (c, d) = (x as int, y as int);
            if c < d {
                assert(c * p + p <= d * p) by (nonlinear_arith)
                    requires
                        c + 1 <= d,
                        p >= 0,
                ;
            } else if c > d {
                assert(d * p + p <= c * p) by (nonlinear_arith)
                    requires
                        d + 1 <= c,
                        p >= 0,
                ;
            }
        }
        if x < y {
            r = true;
        } else if x > y {
            r = false;
        }
        i = i + 1;
    }
    proof {
        lemma_low(a@, n as int);
        lemma_low(b@, n as int);
    }
    r
}

/// The sum of two numbers.
pub fn plus(a: &Vec<u8>, b: &Vec<u8>) -> (r: Vec<u8>)
    requires
        digits(a@),
        digits(b@),
    ensures
        digits(r@),
        value(r@) == value(a@) + value(b@),
{
    let n: usize = if a.len() < b.len() {
        b.len()
    } else {
        a.len()
    };
    let mut out: Vec<u8> = Vec::new();
    let mut carry: u8 = 0;
    let mut i: usize = 0;
    proof {
        lemma_low(a@, 0);
        lemma_low(b@, 0);
    }
    while i < n
        invariant
            digits(a@),
            digits(b@),
            digits(out@),
            i <= n,
            out@.len() == i,
            carry <= 1,
            value(out@) + carry * pow10(i as nat) == low(a@, i as int) + low(b@, i as int),
        decreases n - i,
    {
        let t: u8 = digit_at(a, i) + digit_at(b, i) + carry;
        let (d, c): (u8, u8) = if t >= 10 {
            (t - 10, 1)
        } else {
            (t, 0)
        };
        proof {
            lemma_low(a@, i as int);
            lemma_low(b@, i as int);
            lemma_value_push(out@, d);
            let p = pow10(i as nat);
            let x = digit(a@, i as int);
            let y = digit(b@, i as int);
            assert(d * p + c * (10 * p) == x * p + y * p + carry * p) by (nonlinear_arith)
                requires
                    d + 10 * c == x + y + carry,
            ;
        }
        out.push(d);
        carry = c;
        i = i + 1;
    }
    proof {
        lemma_low(a@, n as int);
        lemma_low(b@, n as int);
        lemma_value_push(out@, carry);
    }
    out.push(carry);
    out
}

/// A number with `k` zeros behind it.
pub fn times_ten_to(a: &Vec<u8>, k: usize) -> (r: Vec<u8>)
    requires
        digits(a@),
    ensures
        digits(r@),
        value(r@) == value(a@) * pow10(k as nat),
{
    let mut out: Vec<u8> = Vec::new();
    let mut i: usize = 0;
    while i < k
        invariant
            i <= k,
            out@.len() == i,
            digits(out@),
            value(out@) == 0,
        decreases k - i,
    {
        proof {
            lemma_value_push(out@, 0);
        }
        out.push(0);
        i = i + 1;
    }
    let mut j: usize = 0;
    let ghost p = pow10(k as nat);
    assert(value(a@.take(0)) == 0);
    assert(0 * p == 0);
    while j < a.len()
        invariant
            digits(a@),
            j <= a.len(),
            out@.len() == k + j,
            digits(out@),
            p == pow10(k as nat),
            value(out@) == value(a@.take(j as int)) * p,
        decreases a.len() - j,
    {
        proof {
            let d = a@[j as int];
            lemma_value_push(out@, d);
            lemma_value_push(a@.take(j as int), d);
            assert(a@.take(j + 1) =~= a@.take(j as int).push(d));
            lemma_pow10_sum(k as nat, j as nat);
            let v = value(a@.take(j as int));
            let q = pow10(j as nat);
            assert(v * p + d * (p * q) == (v + d * q) * p) by (nonlinear_arith);
        }
        out.push(a[j]);
        j = j + 1;
    }
    assert(a@.take(a@.len() as int) =~= a@);
    out
}

/// The product of two numbers.
pub fn times(a: &Vec<u8>, b: &Vec<u8>) -> (r: Vec<u8>)
    requires
        digits(a@),
        digits(b@),
    ensures
        digits(r@),
        value(r@) == value(a@) * value(b@),
{
    let mut out: Vec<u8> = Vec::new();
    let mut i: usize = b.len();
    assert(value(b@.skip(b@.len() as int)) == 0);
    assert(value(a@) * 0 == 0);
    while i > 0
        invariant
            digits(a@),
            digits(b@),
            i <= b.len(),
            digits(out@),
            value(out@) == value(a@) * value(b@.skip(i as int)),
        decreases i,
    {
        i = i - 1;
        let ghost x = value(a@);
        let ghost y = value(b@.skip(i + 1));
        proof {
            reveal_with_fuel(pow10, 2);
        }
        out = times_ten_to(&out, 1);
        let d: u8 = b[i];
        let mut n: u8 = 0;
        assert(x * 0 == 0);
        while n < d
            invariant
                digits(a@),
                digits(out@),
                n <= d,
                x == value(a@),
                value(out@) == (x * y) * 10 + x * n,
            decreases d - n,
        {
            out = plus(&out, a);
            assert(x * n + x == x * (n + 1)) by (nonlinear_arith);
            n = n + 1;
        }
        proof {
            let rest = b@.skip(i as int);
            assert(rest.drop_first() =~= b@.skip(i + 1));
            assert(rest[0] == d);
            assert((x * y) * 10 + x * d == x * (d + 10 * y)) by (nonlinear_arith);
        }
    }
    assert(b@.skip(0) =~= b@);
    out
}

/// The difference of a number and one that is no larger.
pub fn minus(a: &Vec<u8>, b: &Vec<u8>) -> (r: Vec<u8>)
    requires
        digits(a@),
        digits(b@),
        value(b@) <= value(a@),
    ensures
        digits(r@),
        value(r@) == value(a@) - value(b@),
{
    let n: usize = if a.len() < b.len() {
        b.len()
    } else {
        a.len()
    };
    let mut out: Vec<u8> = Vec::new();
    let mut borrow: u8 = 0;
    let mut i: usize = 0;
    proof {
        lemma_low(a@, 0);
        lemma_low(b@, 0);
    }
    while i < n
        invariant
            digits(a@),
            digits(b@),
            digits(out@),
            i <= n,
            out@.len() == i,
            borrow <= 1,
            value(out@) - borrow * pow10(i as nat) == low(a@, i as int) - low(b@, i as int),
        decreases n - i,
    {
        let x: u8 = digit_at(a, i);
        let y: u8 = digit_at(b, i) + borrow;
        let (d, c): (u8, u8) = if x < y {
            (x + 10 - y, 1)
        } else {
            (x - y, 0)
        };
        proof {
            lemma_low(a@, i as int);
            lemma_low(b@, i as int);
            lemma_value_push(out@, d);
            let p = pow10(i as nat);
            let u = digit(a@, i as int);
            let v = digit(b@, i as int);
            assert(d * p - c * (10 * p) == u * p - v * p - borrow * p) by (nonlinear_arith)
                requires
                    d - 10 * c == u - v - borrow,
            ;
        }
        out.push(d);
        borrow = c;
        i = i + 1;
    }
    proof {
        lemma_low(a@, n as int);
        lemma_low(b@, n as int);
        lemma_value_bound(out@);
        let p = pow10(n as nat);
        assert(borrow == 0) by {
            if borrow == 1 {
                assert(1 * p == p);
            }
        }
    }
    out
}

/// The quotient of two numbers, rounded down, and what is left over.
pub fn divide(a: &Vec<u8>, b: &Vec<u8>) -> (r: (Vec<u8>, Vec<u8>))
    requires
        digits(a@),
        digits(b@),
        value(b@) > 0,
    ensures
        digits(r.0@),
        digits(r.1@),
        value(r.0@) >= 0,
        0 <= value(r.1@) < value(b@),
        value(a@) == value(r.0@) * value(b@) + value(r.1@),
{
    let mut q: Vec<u8> = Vec::new();
    let mut rest: Vec<u8> = Vec::new();
    let mut i: usize = a.len();
    assert(value(a@.skip(a@.len() as int)) == 0);
    assert(0 * value(b@) == 0);
    while i > 0
        invariant
            digits(a@),
            digits(b@),
            value(b@) > 0,
            i <= a@.len(),
            digits(q@),
            digits(rest@),
            value(q@) >= 0,
            0 <= value(rest@) < value(b@),
            value(a@.skip(i as int)) == value(q@) * value(b@) + value(rest@),
        decreases i,
    {
        i = i - 1;
        let ghost (v, y, w) = (value(q@), value(b@), value(rest@));
        let ghost high = a@.skip(i as int);
        assert(high.drop_first() =~= a@.skip(i + 1));
        assert(high[0] == a@[i as int]);
        let mut one: Vec<u8> = Vec::new();
        one.push(a[i]);
        proof {
            reveal_with_fuel(value, 2);
            reveal_with_fuel(pow10, 2);
            assert(value(one@) == a@[i as int]);
            assert(pow10(1) == 10);
            assert(w * pow10(1) == 10 * w) by (nonlinear_arith)
                requires
                    pow10(1) == 10,
            ;
        }
        rest = plus(&times_ten_to(&rest, 1), &one);
        let mut n: u8 = 0;
        assert(n * y == 0) by (nonlinear_arith)
            requires
                n == 0,
        ;
        while !less(&rest, b)
            invariant
                digits(b@),
                digits(rest@),
                y == value(b@),
                y > 0,
                n <= 9,
                10 * w + a@[i as int] < 10 * y,
                value(rest@) >= 0,
                value(rest@) + n * y == 10 * w + a@[i as int],
            decreases value(rest@),
        {
            rest = minus(&rest, b);
            proof {
                let k = n as int;
                assert(k * y + y == (k + 1) * y) by (nonlinear_arith);
                assert(k + 1 < 10) by (nonlinear_arith)
                    requires
                        (k + 1) * y < 10 * y,
                        y > 0,
                ;
            }
            n = n + 1;
        }
        let mut step: Vec<u8> = Vec::new();
        step.push(n);
        proof {
            reveal_with_fuel(value, 2);
            reveal_with_fuel(pow10, 2);
            assert(value(step@) == n);
            let k = n as int;
            assert(10 * (v * y) + k * y == (v * 10 + k) * y) by (nonlinear_arith);
        }
        q = plus(&times_ten_to(&q, 1), &step);
    }
    assert(a@.skip(0) =~= a@);
    (q, rest)
}

/// The digits of a number.
pub fn digits_of(n: u64) -> (r: Vec<u8>)
    ensures
        digits(r@),
        value(r@) == n,
{
    let mut out: Vec<u8> = Vec::new();
    let mut rest: u64 = n;
    assert(pow10(0) * (n as int) == n);
    while rest > 0
        invariant
            digits(out@),
            value(out@) + pow10(out@.len()) * (rest as int) == n,
        decreases rest,
    {
        let d: u8 = (rest % 10) as u8;
        proof {
            lemma_value_push(out@, d);
            let p = pow10(out@.len());
            let (r, q) = (rest as int, rest as int / 10);
            assert(d * p + (10 * p) * q == p * r) by (nonlinear_arith)
                requires
                    r == 10 * q + d,
            ;
        }
        out.push(d);
        rest = rest / 10;
    }
    assert(pow10(out@.len()) * 0 == 0);
    out
}

/// What the digits from place `k` on come to, where it does not exceed `max`.
pub fn high_part(a: &Vec<u8>, k: usize, max: u64) -> (r: Option<u64>)
    requires
        digits(a@),
        k <= a@.len(),
    ensures
        r == (if value(a@.skip(k as int)) <= max {
            Some(value(a@.skip(k as int)) as u64)
        } else {
            None
        }),
        r matches Some(n) ==> n == value(a@.skip(k as int)),
{
    let mut n: u64 = 0;
    let mut i: usize = a.len();
    assert(value(a@.skip(a@.len() as int)) == 0);
    while i > k
        invariant
            digits(a@),
            k <= i <= a@.len(),
            n == value(a@.skip(i as int)),
            n <= max,
        decreases i,
    {
        i = i - 1;
        let ghost rest = a@.skip(i as int);
        assert(rest.drop_first() =~= a@.skip(i + 1));
        assert(rest[0] == a@[i as int]);
        let next: u128 = (n as u128) * 10 + a[i] as u128;
        assert(next == value(rest));
        if next > max as u128 {
            proof {
                lemma_high_grows(a@.skip(k as int), (i - k) as nat);
                assert(a@.skip(k as int).skip(i - k) =~= rest);
            }
            return None;
        }
        n = next as u64;
    }
    Some(n)
}

proof fn lemma_high_grows(s: Seq<u8>, k: nat)
    requires
        digits(s),
        k <= s.len(),
    ensures
        value(s.skip(k as int)) <= value(s),
{
    lemma_value_split(s, k);
    lemma_value_bound(s.take(k as int));
    lemma_value_bound(s.skip(k as int));
    lemma_pow10_positive(k);
    let p = pow10(k);
    let v = value(s.skip(k as int));
    assert(v <= p * v) by (nonlinear_arith)
        requires
            p >= 1,
            v >= 0,
    ;
}

/// The number of zeros in the lowest `k` places before the first other digit.
pub fn zeros_below(a: &Vec<u8>, k: usize) -> (r: usize)
    requires
        k <= a@.len(),
    ensures
        r <= k,
        forall|i: int| 0 <= i < r ==> (#[trigger] a@[i]) == 0,
        r < k ==> a@[r as int] != 0,
{
    let mut i: usize = 0;
    while i < k && a[i] == 0
        invariant
            i <= k <= a@.len(),
            forall|j: int| 0 <= j < i ==> (#[trigger] a@[j]) == 0,
        decreases k - i,
    {
        i = i + 1;
    }
    i
}

} // verus!
