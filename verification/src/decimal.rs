//! Decimal numbers of any length: how they are read, written and compared.
use crate::digits::{
    digits, digits_of, lemma_pow10_positive, lemma_pow10_sum, lemma_value_bound, lemma_value_push,
    lemma_value_split, less, plus, pow10, times, times_ten_to, value, zeros_below,
};
use crate::money::nearest;
use crate::text::{
    all_digits, chars_of, digit_char, digits_value, is_digit, lemma_numeral_injective,
    lemma_numeral_spells, number, numeral, padded, spelled,
};
use vstd::prelude::*;
use vstd::string::StringExecFns;

verus! {

// ------------------------------------------------------------------ reading

/// The largest exponent that is read.
pub const EXPONENT_MAX: u64 = 6_144;

/// Whether a text opens with a minus sign.
pub open spec fn negative(s: Seq<char>) -> bool {
    s.len() > 0 && s[0] == '-'
}

/// A text without the sign that it may open with.
pub open spec fn unsigned(s: Seq<char>) -> Seq<char> {
    if s.len() > 0 && (s[0] == '+' || s[0] == '-') {
        s.drop_first()
    } else {
        s
    }
}

/// Where the first of two characters stands in `s`, or its length if neither
/// does.
pub open spec fn place(s: Seq<char>, a: char, b: char) -> int
    decreases s.len(),
{
    if s.len() == 0 || s[0] == a || s[0] == b {
        0
    } else {
        1 + place(s.drop_first(), a, b)
    }
}

/// What follows the character at a place.
pub open spec fn behind(s: Seq<char>, at: int) -> Seq<char> {
    if at < s.len() {
        s.skip(at + 1)
    } else {
        Seq::empty()
    }
}

/// Digits, and optionally a point and more digits: the number that they spell
/// without the point, and how many of them stand behind it.
pub open spec fn coefficient_of(s: Seq<char>) -> Option<(int, nat)> {
    let dot = place(s, '.', '.');
    let whole = s.take(dot);
    let frac = behind(s, dot);
    if all_digits(whole) && all_digits(frac) && whole.len() + frac.len() > 0 {
        Some((spelled(whole + frac), frac.len()))
    } else {
        None
    }
}

/// An exponent: an optional sign, and digits.
pub open spec fn exponent_of(s: Seq<char>) -> Option<int> {
    let body = unsigned(s);
    if body.len() > 0 && all_digits(body) && spelled(body) <= EXPONENT_MAX {
        Some(
            if negative(s) {
                -spelled(body)
            } else {
                spelled(body)
            },
        )
    } else {
        None
    }
}

/// A number where it is positive, and else nothing.
pub open spec fn positive(e: int) -> nat {
    if e > 0 {
        e as nat
    } else {
        0
    }
}

/// The decimal number that a text spells, as a numerator over a power of ten:
/// an optional sign, digits, optionally a point and more digits, and optionally
/// an exponent. Its length is bounded by memory alone.
pub open spec fn decimal_value(s: Seq<char>) -> Option<(int, nat)> {
    let body = unsigned(s);
    let mark = place(body, 'e', 'E');
    let tail = if mark < body.len() {
        exponent_of(behind(body, mark))
    } else {
        Some(0int)
    };
    match (coefficient_of(body.take(mark)), tail) {
        (Some((n, d)), Some(e)) => {
            let m = n * pow10(positive(e));
            let k = d + positive(-e);
            if k > usize::MAX {
                None
            } else if negative(s) {
                Some((-m, k))
            } else {
                Some((m, k))
            }
        },
        _ => None,
    }
}

pub proof fn lemma_place_at(s: Seq<char>, a: char, b: char, k: int)
    requires
        0 <= k <= s.len(),
        forall|i: int| 0 <= i < k ==> (#[trigger] s[i]) != a && s[i] != b,
        k < s.len() ==> s[k] == a || s[k] == b,
    ensures
        place(s, a, b) == k,
    decreases s.len(),
{
    if k > 0 {
        let rest = s.drop_first();
        assert(s[0] != a && s[0] != b);
        assert forall|i: int| 0 <= i < k - 1 implies (#[trigger] rest[i]) != a && rest[i] != b by {
            assert(rest[i] == s[i + 1]);
        }
        lemma_place_at(rest, a, b, k - 1);
    }
}

proof fn lemma_spelled_front(s: Seq<char>)
    requires
        s.len() > 0,
    ensures
        spelled(s) == (s[0] as u32 - '0' as u32) * pow10((s.len() - 1) as nat) + spelled(
            s.drop_first(),
        ),
    decreases s.len(),
{
    let c = s[0] as u32 - '0' as u32;
    if s.len() == 1 {
        assert(s.drop_last() =~= Seq::<char>::empty());
        assert(s.drop_first() =~= Seq::<char>::empty());
        assert(spelled(s.drop_last()) == 0);
        assert(pow10(0) == 1);
        assert(c * 1 == c);
    } else {
        let front = s.drop_last();
        lemma_spelled_front(front);
        assert(front.drop_first() =~= s.drop_first().drop_last());
        assert(s.drop_first().last() == s.last());
        let p = pow10((s.len() - 2) as nat);
        assert(10 * (c * p) == c * (10 * p)) by (nonlinear_arith);
    }
}

proof fn lemma_spelled_joined(a: Seq<char>, b: Seq<char>)
    ensures
        spelled(a + b) == spelled(a) * pow10(b.len()) + spelled(b),
    decreases b.len(),
{
    if b.len() == 0 {
        assert(a + b =~= a);
        assert(spelled(a) * 1 == spelled(a));
    } else {
        let c = b.drop_last();
        lemma_spelled_joined(a, c);
        assert((a + b).drop_last() =~= a + c);
        assert((a + b).last() == b.last());
        let x = spelled(a);
        let p = pow10(c.len());
        assert((x * p) * 10 == x * (10 * p)) by (nonlinear_arith);
    }
}

/// A decimal number.
#[derive(Debug)]
pub struct Decimal {
    pub neg: bool,
    /// Its digits, the lowest one first.
    pub mag: Vec<u8>,
    /// How many of them stand behind the point.
    pub places: usize,
}

impl Decimal {
    pub open spec fn wf(self) -> bool {
        digits(self.mag@)
    }

    /// Its numerator over the power of ten.
    pub open spec fn num(self) -> int {
        if self.neg {
            -value(self.mag@)
        } else {
            value(self.mag@)
        }
    }

    /// Whether it is more than nothing.
    pub fn is_positive(&self) -> (r: bool)
        requires
            self.wf(),
        ensures
            r == (self.num() > 0),
    {
        proof {
            lemma_value_bound(self.mag@);
        }
        !self.neg && less(&Vec::new(), &self.mag)
    }
}

/// Puts the digits `v[from..to]` above those that are there.
fn push_digits(mag: &mut Vec<u8>, v: &Vec<char>, from: usize, to: usize) -> (r: bool)
    requires
        digits(old(mag)@),
        from <= to <= v@.len(),
    ensures
        r == all_digits(v@.subrange(from as int, to as int)),
        r ==> digits(final(mag)@) && value(final(mag)@) == value(old(mag)@) + pow10(
            old(mag)@.len(),
        ) * spelled(v@.subrange(from as int, to as int)) && final(mag)@.len() == old(mag)@.len() + (
        to - from),
{
    let ghost text = v@.subrange(from as int, to as int);
    let ghost first = mag@;
    let mut i: usize = to;
    proof {
        assert(text.skip(text.len() as int) =~= Seq::<char>::empty());
        assert(spelled(text.skip(text.len() as int)) == 0);
        assert(pow10(first.len()) * 0 == 0);
    }
    while i > from
        invariant
            from <= i <= to <= v@.len(),
            text == v@.subrange(from as int, to as int),
            digits(mag@),
            mag@.len() == first.len() + (to - i),
            all_digits(text.skip(i - from)),
            value(mag@) == value(first) + pow10(first.len()) * spelled(text.skip(i - from)),
        decreases i,
    {
        i = i - 1;
        let c: char = v[i];
        let ghost k: int = i - from;
        assert(text[k] == c);
        if c < '0' || c > '9' {
            assert(!is_digit(text[k]));
            return false;
        }
        let d: u8 = (c as u32 - '0' as u32) as u8;
        proof {
            let rest = text.skip(k);
            let tail = text.skip(k + 1);
            assert(rest.drop_first() =~= tail);
            assert(rest[0] == c);
            lemma_spelled_front(rest);
            lemma_value_push(mag@, d);
            lemma_pow10_sum(first.len(), tail.len());
            let p = pow10(first.len());
            let q = pow10(tail.len());
            let t = spelled(tail);
            assert(p * t + d * (p * q) == p * (d * q + t)) by (nonlinear_arith);
            assert forall|j: int| 0 <= j < rest.len() implies is_digit(#[trigger] rest[j]) by {
                if j > 0 {
                    assert(rest[j] == tail[j - 1]);
                }
            }
        }
        mag.push(d);
    }
    assert(text.skip(0) =~= text);
    true
}

fn first_place(v: &Vec<char>, from: usize, to: usize, a: char, b: char) -> (r: usize)
    requires
        from <= to <= v@.len(),
    ensures
        from <= r <= to,
        r - from == place(v@.subrange(from as int, to as int), a, b),
{
    let ghost s = v@.subrange(from as int, to as int);
    let mut i: usize = from;
    while i < to && v[i] != a && v[i] != b
        invariant
            from <= i <= to <= v@.len(),
            s == v@.subrange(from as int, to as int),
            forall|j: int| 0 <= j < i - from ==> (#[trigger] s[j]) != a && s[j] != b,
        decreases to - i,
    {
        assert(s[i - from] == v@[i as int]);
        i = i + 1;
    }
    proof {
        lemma_place_at(s, a, b, i - from);
    }
    i
}

/// Reads digits with an optional point.
fn coefficient(v: &Vec<char>, from: usize, to: usize) -> (r: Option<(Vec<u8>, usize)>)
    requires
        from <= to <= v@.len(),
    ensures
        match coefficient_of(v@.subrange(from as int, to as int)) {
            Some((n, d)) => r matches Some((mag, places)) && digits(mag@) && value(mag@) == n
                && places == d,
            None => r is None,
        },
{
    let ghost s = v@.subrange(from as int, to as int);
    let dot: usize = first_place(v, from, to, '.', '.');
    let start: usize = if dot < to {
        dot + 1
    } else {
        to
    };
    let ghost whole = s.take(dot - from);
    let ghost frac = behind(s, dot - from);
    assert(whole =~= v@.subrange(from as int, dot as int));
    assert(frac =~= v@.subrange(start as int, to as int));
    if dot - from + (to - start) == 0 {
        return None;
    }
    let mut mag: Vec<u8> = Vec::new();
    if !push_digits(&mut mag, v, start, to) {
        return None;
    }
    proof {
        assert(pow10(0) * spelled(frac) == spelled(frac));
        lemma_spelled_joined(whole, frac);
    }
    if !push_digits(&mut mag, v, from, dot) {
        return None;
    }
    proof {
        let x = spelled(whole);
        let p = pow10(frac.len());
        assert(p * x == x * p) by (nonlinear_arith);
    }
    Some((mag, to - start))
}

/// Reads an exponent: whether it is negative, and its size.
fn exponent(v: &Vec<char>, from: usize) -> (r: Option<(bool, usize)>)
    requires
        from <= v@.len(),
    ensures
        match exponent_of(v@.skip(from as int)) {
            Some(e) => r matches Some((down, size)) && e == (if down {
                -(size as int)
            } else {
                size as int
            }) && size <= EXPONENT_MAX,
            None => r is None,
        },
{
    let n: usize = v.len();
    let ghost s = v@.skip(from as int);
    let down: bool = from < n && v[from] == '-';
    let start: usize = if from < n && (v[from] == '+' || v[from] == '-') {
        from + 1
    } else {
        from
    };
    assert(unsigned(s) =~= v@.subrange(start as int, n as int));
    if start == n {
        return None;
    }
    match digits_value(v, start, n, EXPONENT_MAX) {
        Some(size) => {
            proof {
                lemma_spelled_positive(unsigned(s));
            }
            Some((down, size as usize))
        },
        None => None,
    }
}

proof fn lemma_spelled_positive(s: Seq<char>)
    requires
        all_digits(s),
    ensures
        spelled(s) >= 0,
    decreases s.len(),
{
    if s.len() > 0 {
        assert(is_digit(s.last()));
        lemma_spelled_positive(s.drop_last());
    }
}

/// Reads a decimal number.
pub fn read(s: &str) -> (r: Option<Decimal>)
    ensures
        match decimal_value(s@) {
            Some((n, k)) => r matches Some(d) && d.wf() && d.num() == n && d.places == k,
            None => r is None,
        },
{
    let v: Vec<char> = chars_of(s);
    let n: usize = v.len();
    let neg: bool = n > 0 && v[0] == '-';
    let from: usize = if n > 0 && (v[0] == '+' || v[0] == '-') {
        1
    } else {
        0
    };
    let ghost body = unsigned(s@);
    assert(body =~= v@.subrange(from as int, n as int));
    let mark: usize = first_place(&v, from, n, 'e', 'E');
    let ghost k: int = mark - from;
    assert(body.take(k) =~= v@.subrange(from as int, mark as int));
    let (mag, places): (Vec<u8>, usize) = match coefficient(&v, from, mark) {
        Some(x) => x,
        None => {
            return None;
        },
    };
    if mark == n {
        proof {
            let m = value(mag@);
            assert(m * pow10(0) == m);
        }
        return Some(Decimal { neg, mag, places });
    }
    assert(behind(body, k) =~= v@.skip(mark + 1));
    match exponent(&v, mark + 1) {
        Some((true, size)) => if places > usize::MAX - size {
            None
        } else {
            proof {
                let m = value(mag@);
                assert(m * pow10(0) == m);
            }
            Some(Decimal { neg, mag, places: places + size })
        },
        Some((false, size)) => Some(Decimal { neg, mag: times_ten_to(&mag, size), places }),
        None => None,
    }
}

// ------------------------------------------------------------------- ratios

/// A decimal number as a fraction.
pub open spec fn fraction(d: (int, nat)) -> (int, int) {
    (d.0, pow10(d.1))
}

/// The number that a text spells, as a fraction.
pub open spec fn fraction_of(s: Seq<char>) -> Option<(int, int)> {
    match decimal_value(s) {
        Some(d) => Some(fraction(d)),
        None => None,
    }
}

/// The sum of two fractions.
pub open spec fn total(a: (int, int), b: (int, int)) -> (int, int) {
    (a.0 * b.1 + b.0 * a.1, a.1 * b.1)
}

/// The quotient of two fractions, the second of them positive.
pub open spec fn per(a: (int, int), b: (int, int)) -> (int, int) {
    (a.0 * b.1, a.1 * b.0)
}

/// One without a fraction.
pub open spec fn rest_of_one(a: (int, int)) -> (int, int) {
    (a.1 - a.0, a.1)
}

/// Whether a fraction is smaller than another.
pub open spec fn below(a: (int, int), b: (int, int)) -> bool {
    a.0 * b.1 < b.0 * a.1
}

/// A fraction: the difference of two numbers, over a third.
#[derive(Debug)]
pub struct Ratio {
    pub up: Vec<u8>,
    pub down: Vec<u8>,
    pub den: Vec<u8>,
}

impl Ratio {
    pub open spec fn wf(self) -> bool {
        &&& digits(self.up@)
        &&& digits(self.down@)
        &&& digits(self.den@)
        &&& value(self.den@) > 0
    }

    pub open spec fn at(self) -> (int, int) {
        (value(self.up@) - value(self.down@), value(self.den@))
    }

    /// The fraction of two small numbers.
    pub fn of(n: u64, d: u64) -> (r: Ratio)
        requires
            d > 0,
        ensures
            r.wf(),
            r.at() == (n as int, d as int),
    {
        Ratio { up: digits_of(n), down: Vec::new(), den: digits_of(d) }
    }

    /// A decimal number as a fraction.
    pub fn from_decimal(d: Decimal) -> (r: Ratio)
        requires
            d.wf(),
        ensures
            r.wf(),
            r.at() == fraction((d.num(), d.places as nat)),
    {
        proof {
            lemma_pow10_positive(d.places as nat);
            assert(1 * pow10(d.places as nat) == pow10(d.places as nat));
        }
        let den: Vec<u8> = times_ten_to(&digits_of(1), d.places);
        if d.neg {
            Ratio { up: Vec::new(), down: d.mag, den }
        } else {
            Ratio { up: d.mag, down: Vec::new(), den }
        }
    }

    /// Reads a fraction.
    pub fn read(s: &str) -> (r: Option<Ratio>)
        ensures
            match fraction_of(s@) {
                Some(f) => r matches Some(x) && x.wf() && x.at() == f,
                None => r is None,
            },
    {
        match read(s) {
            Some(d) => Some(Ratio::from_decimal(d)),
            None => None,
        }
    }

    /// The sum of two fractions.
    pub fn total(&self, b: &Ratio) -> (r: Ratio)
        requires
            self.wf(),
            b.wf(),
        ensures
            r.wf(),
            r.at() == total(self.at(), b.at()),
    {
        proof {
            let (u, d, x) = (value(self.up@), value(self.down@), value(self.den@));
            let (v, e, y) = (value(b.up@), value(b.down@), value(b.den@));
            assert((u * y + v * x) - (d * y + e * x) == (u - d) * y + (v - e) * x)
                by (nonlinear_arith);
            assert(x * y > 0) by (nonlinear_arith)
                requires
                    x > 0,
                    y > 0,
            ;
        }
        Ratio {
            up: plus(&times(&self.up, &b.den), &times(&b.up, &self.den)),
            down: plus(&times(&self.down, &b.den), &times(&b.down, &self.den)),
            den: times(&self.den, &b.den),
        }
    }

    /// The quotient of a fraction and a positive decimal number.
    pub fn per(&self, d: &Decimal) -> (r: Ratio)
        requires
            self.wf(),
            d.wf(),
            d.num() > 0,
        ensures
            r.wf(),
            r.at() == per(self.at(), fraction((d.num(), d.places as nat))),
    {
        proof {
            lemma_value_bound(d.mag@);
            let (u, w, x) = (value(self.up@), value(self.down@), value(self.den@));
            let p = pow10(d.places as nat);
            let n = value(d.mag@);
            assert(u * p - w * p == (u - w) * p) by (nonlinear_arith);
            assert(x * n > 0) by (nonlinear_arith)
                requires
                    x > 0,
                    n > 0,
            ;
        }
        Ratio {
            up: times_ten_to(&self.up, d.places),
            down: times_ten_to(&self.down, d.places),
            den: times(&self.den, &d.mag),
        }
    }

    /// One without a fraction.
    pub fn rest_of_one(&self) -> (r: Ratio)
        requires
            self.wf(),
        ensures
            r.wf(),
            r.at() == rest_of_one(self.at()),
    {
        Ratio {
            up: plus(&self.den, &self.down),
            down: plus(&self.up, &Vec::new()),
            den: plus(&self.den, &Vec::new()),
        }
    }

    /// Whether a fraction is smaller than another.
    pub fn below(&self, b: &Ratio) -> (r: bool)
        requires
            self.wf(),
            b.wf(),
        ensures
            r == below(self.at(), b.at()),
    {
        proof {
            let (u, d, x) = (value(self.up@), value(self.down@), value(self.den@));
            let (v, e, y) = (value(b.up@), value(b.down@), value(b.den@));
            assert((u - d) * y == u * y - d * y) by (nonlinear_arith);
            assert((v - e) * x == v * x - e * x) by (nonlinear_arith);
        }
        less(
            &plus(&times(&self.up, &b.den), &times(&b.down, &self.den)),
            &plus(&times(&b.up, &self.den), &times(&self.down, &b.den)),
        )
    }

    /// Whether `n` parts out of `parts` are no more than the fraction.
    fn reaches(&self, n: u64, parts: u64) -> (r: bool)
        requires
            self.wf(),
        ensures
            r == (n * self.at().1 <= self.at().0 * parts),
    {
        proof {
            let (u, d, x) = (value(self.up@), value(self.down@), value(self.den@));
            assert((u - d) * parts == u * parts - d * parts) by (nonlinear_arith);
            assert(x * n == n * x) by (nonlinear_arith);
        }
        let k: Vec<u8> = digits_of(parts);
        !less(
            &times(&self.up, &k),
            &plus(&times(&self.den, &digits_of(n)), &times(&self.down, &k)),
        )
    }

    /// A fraction between nothing and one, in parts out of `parts`, rounded to
    /// the nearest one and to the even one of two.
    pub fn nearest_part(&self, parts: u64) -> (r: u64)
        requires
            self.wf(),
            0 < parts <= 1_000_000_000,
            0 <= self.at().0 < self.at().1,
        ensures
            r == nearest(self.at().0 * parts, self.at().1),
            r <= parts,
    {
        let ghost (x, d) = self.at();
        let mut lo: u64 = 0;
        let mut hi: u64 = parts;
        proof {
            assert(0 * d <= x * parts) by (nonlinear_arith)
                requires
                    x >= 0,
                    parts > 0,
            ;
            assert(parts * d > x * parts) by (nonlinear_arith)
                requires
                    x < d,
                    parts > 0,
            ;
        }
        while hi - lo > 1
            invariant
                self.wf(),
                (x, d) == self.at(),
                lo < hi <= parts <= 1_000_000_000,
                lo * d <= x * parts,
                hi * d > x * parts,
            decreases hi - lo,
        {
            let mid: u64 = lo + (hi - lo) / 2;
            if self.reaches(mid, parts) {
                lo = mid;
            } else {
                hi = mid;
            }
        }
        proof {
            let (a, l) = (x * parts, lo as int);
            assert(l * d + d == (l + 1) * d) by (nonlinear_arith);
            vstd::arithmetic::div_mod::lemma_fundamental_div_mod_converse(a, d, l, a - l * d);
            assert((2 * l + 1) * d == 2 * (l * d) + d) by (nonlinear_arith);
            assert((2 * l + 2) * d == 2 * (l * d) + 2 * d) by (nonlinear_arith);
            assert(x * (2 * parts) == 2 * (x * parts)) by (nonlinear_arith);
        }
        let half: bool = self.reaches(2 * lo + 1, 2 * parts);
        if !half {
            return lo;
        }
        let more: bool = self.passes(2 * lo + 1, 2 * parts);
        if !more && lo % 2 == 0 {
            lo
        } else {
            lo + 1
        }
    }

    /// Whether the fraction is more than `n` parts out of `parts`.
    fn passes(&self, n: u64, parts: u64) -> (r: bool)
        requires
            self.wf(),
        ensures
            r == (n * self.at().1 < self.at().0 * parts),
    {
        proof {
            let (u, d, x) = (value(self.up@), value(self.down@), value(self.den@));
            assert((u - d) * parts == u * parts - d * parts) by (nonlinear_arith);
            assert(x * n == n * x) by (nonlinear_arith);
        }
        let k: Vec<u8> = digits_of(parts);
        less(
            &plus(&times(&self.den, &digits_of(n)), &times(&self.down, &k)),
            &times(&self.up, &k),
        )
    }
}

// ----------------------------------------------------------------- notation

/// A fraction of `k` decimals, without the zeros at its end.
pub open spec fn fraction_text(m: nat, k: nat) -> Seq<char>
    decreases k,
{
    if k == 0 {
        ""@
    } else if m % 10 == 0 {
        fraction_text(m / 10, (k - 1) as nat)
    } else {
        "."@ + padded(m, k)
    }
}

/// A number without its sign.
pub open spec fn size(n: int) -> nat {
    if n < 0 {
        (-n) as nat
    } else {
        n as nat
    }
}

/// The number `n` over the `k`-th power of ten in decimal notation, without
/// zeros at its end.
pub open spec fn standard(n: int, k: nat) -> Seq<char> {
    (if n < 0 {
        "-"@
    } else {
        ""@
    }) + numeral((size(n) as int / pow10(k)) as nat) + fraction_text(
        (size(n) as int % pow10(k)) as nat,
        k,
    )
}

fn whole_text(a: &Vec<u8>, k: usize) -> (r: String)
    requires
        digits(a@),
        k <= a@.len(),
    ensures
        r@ == numeral(value(a@.skip(k as int)) as nat),
{
    let mut s: String = String::new();
    let mut zero: bool = true;
    let mut i: usize = a.len();
    assert(value(a@.skip(a@.len() as int)) == 0);
    while i > k
        invariant
            digits(a@),
            k <= i <= a@.len(),
            zero == (value(a@.skip(i as int)) == 0),
            value(a@.skip(i as int)) >= 0,
            s@ == (if zero {
                Seq::<char>::empty()
            } else {
                numeral(value(a@.skip(i as int)) as nat)
            }),
        decreases i,
    {
        i = i - 1;
        let ghost rest = a@.skip(i as int);
        let ghost v = value(a@.skip(i + 1));
        assert(rest.drop_first() =~= a@.skip(i + 1));
        assert(rest[0] == a@[i as int]);
        if !(zero && a[i] == 0) {
            s.append(number(a[i] as u64).as_str());
            assert(s@ =~= numeral(value(rest) as nat));
            zero = false;
        }
    }
    if zero {
        number(0)
    } else {
        s
    }
}

fn padded_text(a: &Vec<u8>, j: usize, k: usize) -> (r: String)
    requires
        digits(a@),
        j <= k <= a@.len(),
    ensures
        r@ == padded(value(a@.subrange(j as int, k as int)) as nat, (k - j) as nat),
{
    let mut s: String = String::new();
    let mut i: usize = k;
    assert(s@ =~= Seq::<char>::empty());
    while i > j
        invariant
            digits(a@),
            j <= i <= k <= a@.len(),
            value(a@.subrange(i as int, k as int)) >= 0,
            s@ == padded(value(a@.subrange(i as int, k as int)) as nat, (k - i) as nat),
        decreases i,
    {
        i = i - 1;
        let ghost rest = a@.subrange(i as int, k as int);
        assert(rest.drop_first() =~= a@.subrange(i + 1, k as int));
        assert(rest[0] == a@[i as int]);
        s.append(number(a[i] as u64).as_str());
        assert(s@ =~= padded(value(rest) as nat, (k - i) as nat));
    }
    s
}

proof fn lemma_fraction_skips_zeros(s: Seq<u8>, z: nat)
    requires
        digits(s),
        z <= s.len(),
        forall|i: int| 0 <= i < z ==> (#[trigger] s[i]) == 0,
    ensures
        fraction_text(value(s) as nat, s.len()) == fraction_text(
            value(s.skip(z as int)) as nat,
            (s.len() - z) as nat,
        ),
    decreases z,
{
    if z == 0 {
        assert(s.skip(0) =~= s);
    } else {
        let rest = s.drop_first();
        assert(s[0] == 0);
        lemma_value_bound(rest);
        assert forall|i: int| 0 <= i < z - 1 implies (#[trigger] rest[i]) == 0 by {
            assert(rest[i] == s[i + 1]);
        }
        lemma_fraction_skips_zeros(rest, (z - 1) as nat);
        assert(rest.skip(z - 1) =~= s.skip(z as int));
    }
}

impl Decimal {
    /// A number in decimal notation, without zeros at its end.
    pub fn text(&self) -> (r: String)
        requires
            self.wf(),
        ensures
            r@ == standard(self.num(), self.places as nat),
    {
        let k: usize = self.places;
        let mut mag: Vec<u8> = plus(&self.mag, &Vec::new());
        while mag.len() < k
            invariant
                digits(mag@),
                value(mag@) == value(self.mag@),
            decreases k - mag.len(),
        {
            proof {
                lemma_value_push(mag@, 0);
            }
            mag.push(0);
        }
        proof {
            lemma_value_bound(self.mag@);
            lemma_value_split(mag@, k as nat);
            lemma_value_bound(mag@.take(k as int));
            lemma_value_bound(mag@.skip(k as int));
            let p = pow10(k as nat);
            let q = value(mag@.skip(k as int));
            assert(p * q == q * p) by (nonlinear_arith);
            vstd::arithmetic::div_mod::lemma_fundamental_div_mod_converse(
                value(mag@),
                p,
                q,
                value(mag@.take(k as int)),
            );
        }
        let mut s: String = (if self.neg && self.is_something() {
            "-"
        } else {
            ""
        }).to_owned();
        s.append(whole_text(&mag, k).as_str());
        let z: usize = zeros_below(&mag, k);
        let ghost frac = mag@.take(k as int);
        proof {
            assert forall|i: int| 0 <= i < z implies (#[trigger] frac[i]) == 0 by {
                assert(frac[i] == mag@[i]);
            }
            lemma_fraction_skips_zeros(frac, z as nat);
            assert(frac.skip(z as int) =~= mag@.subrange(z as int, k as int));
            if z < k {
                let rest = mag@.subrange(z as int, k as int);
                assert(rest[0] == mag@[z as int]);
                lemma_value_bound(rest.drop_first());
            }
        }
        let tail: String = if z < k {
            let mut t: String = ".".to_owned();
            t.append(padded_text(&mag, z, k).as_str());
            t
        } else {
            "".to_owned()
        };
        s.append(tail.as_str());
        s
    }

    /// Whether it is anything but nothing.
    fn is_something(&self) -> (r: bool)
        requires
            self.wf(),
        ensures
            r == (value(self.mag@) != 0),
    {
        proof {
            lemma_value_bound(self.mag@);
        }
        less(&Vec::new(), &self.mag)
    }
}

proof fn lemma_padded_spells(n: nat, k: nat)
    ensures
        padded(n, k).len() == k,
        all_digits(padded(n, k)),
    decreases k,
{
    if k > 0 {
        lemma_padded_spells(n / 10, (k - 1) as nat);
    }
}

proof fn lemma_padded_injective(a: nat, b: nat, k: nat)
    requires
        padded(a, k) == padded(b, k),
        a < pow10(k),
        b < pow10(k),
    ensures
        a == b,
    decreases k,
{
    if k > 0 {
        let p = padded(a / 10, (k - 1) as nat);
        let q = padded(b / 10, (k - 1) as nat);
        lemma_padded_spells(a / 10, (k - 1) as nat);
        lemma_padded_spells(b / 10, (k - 1) as nat);
        assert(padded(a, k).last() == digit_char((a % 10) as int));
        assert(padded(b, k).last() == digit_char((b % 10) as int));
        assert(p =~= padded(a, k).drop_last());
        assert(q =~= padded(b, k).drop_last());
        lemma_padded_injective(a / 10, b / 10, (k - 1) as nat);
    }
}

proof fn lemma_fraction(m: nat, k: nat)
    ensures
        fraction_text(m, k).len() <= k + 1,
        fraction_text(m, k).len() > 0 ==> fraction_text(m, k)[0] == '.',
        k > 0 && m % 10 != 0 ==> fraction_text(m, k).len() == k + 1,
        k > 0 && m % 10 == 0 ==> fraction_text(m, k).len() <= k,
    decreases k,
{
    reveal_strlit("");
    reveal_strlit(".");
    if k > 0 {
        if m % 10 == 0 {
            lemma_fraction(m / 10, (k - 1) as nat);
        } else {
            lemma_padded_spells(m, k);
        }
    }
}

proof fn lemma_fraction_injective(a: nat, b: nat, k: nat)
    requires
        fraction_text(a, k) == fraction_text(b, k),
        a < pow10(k),
        b < pow10(k),
    ensures
        a == b,
    decreases k,
{
    if k > 0 {
        lemma_fraction(a, k);
        lemma_fraction(b, k);
        if a % 10 == 0 && b % 10 == 0 {
            lemma_fraction_injective(a / 10, b / 10, (k - 1) as nat);
        } else if a % 10 != 0 && b % 10 != 0 {
            reveal_strlit(".");
            assert(padded(a, k) =~= fraction_text(a, k).skip(1));
            assert(padded(b, k) =~= fraction_text(b, k).skip(1));
            lemma_padded_injective(a, b, k);
        }
    }
}

proof fn lemma_standard_wider(n: int, k: nat)
    ensures
        standard(10 * n, k + 1) == standard(n, k),
{
    let m = size(n) as int;
    let p = pow10(k);
    lemma_pow10_positive(k);
    assert(size(10 * n) == 10 * m);
    assert(pow10(k + 1) == 10 * p);
    vstd::arithmetic::div_mod::lemma_fundamental_div_mod(m, p);
    vstd::arithmetic::div_mod::lemma_mod_bound(m, p);
    let q = m / p;
    let r = m % p;
    assert(10 * m == q * (10 * p) + 10 * r) by (nonlinear_arith)
        requires
            m == p * q + r,
    ;
    vstd::arithmetic::div_mod::lemma_fundamental_div_mod_converse(10 * m, 10 * p, q, 10 * r);
    let f = (10 * r) as nat;
    assert(f % 10 == 0);
    assert(f / 10 == r as nat);
    assert(fraction_text(f, k + 1) == fraction_text(f / 10, k));
}

proof fn lemma_standard_widened(n: int, k: nat, i: nat)
    ensures
        standard(n * pow10(i), k + i) == standard(n, k),
    decreases i,
{
    if i == 0 {
        assert(n * 1 == n);
    } else {
        let j = (i - 1) as nat;
        lemma_standard_widened(n, k, j);
        lemma_standard_wider(n * pow10(j), k + j);
        let p = pow10(j);
        assert(10 * (n * p) == n * (10 * p)) by (nonlinear_arith);
        assert(k + i == k + j + 1);
    }
}

proof fn lemma_standard_injective(a: int, b: int, k: nat)
    requires
        standard(a, k) == standard(b, k),
    ensures
        a == b,
{
    reveal_strlit("-");
    reveal_strlit("");
    lemma_pow10_positive(k);
    let p = pow10(k);
    let (m, n) = (size(a) as int, size(b) as int);
    vstd::arithmetic::div_mod::lemma_fundamental_div_mod(m, p);
    vstd::arithmetic::div_mod::lemma_fundamental_div_mod(n, p);
    vstd::arithmetic::div_mod::lemma_mod_bound(m, p);
    vstd::arithmetic::div_mod::lemma_mod_bound(n, p);
    vstd::arithmetic::div_mod::lemma_div_pos_is_pos(m, p);
    vstd::arithmetic::div_mod::lemma_div_pos_is_pos(n, p);
    let (mw, nw) = ((m / p) as nat, (n / p) as nat);
    let (mf, nf) = ((m % p) as nat, (n % p) as nat);
    let (x, y) = (numeral(mw), numeral(nw));
    let (f, g) = (fraction_text(mf, k), fraction_text(nf, k));
    lemma_numeral_spells(mw);
    lemma_numeral_spells(nw);
    lemma_fraction(mf, k);
    lemma_fraction(nf, k);
    assert(is_digit(x[0]));
    assert(is_digit(y[0]));
    let (s, t) = (standard(a, k), standard(b, k));
    assert(s[0] == (if a < 0 {
        '-'
    } else {
        x[0]
    }));
    assert(t[0] == (if b < 0 {
        '-'
    } else {
        y[0]
    }));
    assert((a < 0) == (b < 0));
    let skip: int = if a < 0 {
        1
    } else {
        0
    };
    assert(x + f =~= s.skip(skip));
    assert(y + g =~= t.skip(skip));
    let u = x + f;
    if x.len() < y.len() {
        assert(u[x.len() as int] == y[x.len() as int]);
        assert(is_digit(y[x.len() as int]));
        assert(f.len() > 0);
        assert(u[x.len() as int] == f[0]);
    }
    if y.len() < x.len() {
        assert(u[y.len() as int] == x[y.len() as int]);
        assert(is_digit(x[y.len() as int]));
        assert((y + g)[y.len() as int] == g[0]);
    }
    assert(x =~= u.take(x.len() as int));
    assert(y =~= u.take(y.len() as int));
    assert(f =~= u.skip(x.len() as int));
    assert(g =~= u.skip(y.len() as int));
    lemma_numeral_injective(mw, nw);
    lemma_fraction_injective(mf, nf, k);
}

/// A number has one text: two are written alike exactly where they are equal,
/// however many zeros they end with.
pub proof fn law_a_number_has_one_text(a: (int, nat), b: (int, nat))
    ensures
        standard(a.0, a.1) == standard(b.0, b.1) <==> a.0 * pow10(b.1) == b.0 * pow10(a.1),
{
    lemma_standard_widened(a.0, a.1, b.1);
    lemma_standard_widened(b.0, b.1, a.1);
    assert(a.1 + b.1 == b.1 + a.1);
    if standard(a.0, a.1) == standard(b.0, b.1) {
        lemma_standard_injective(a.0 * pow10(b.1), b.0 * pow10(a.1), a.1 + b.1);
    }
}

/// What is written is read again: the text of a number is that of one.
pub proof fn lemma_standard_reads(n: int, k: nat)
    requires
        k <= usize::MAX,
    ensures
        decimal_value(standard(n, k)) is Some,
{
    reveal_strlit("-");
    reveal_strlit("");
    reveal_strlit(".");
    lemma_pow10_positive(k);
    let p = pow10(k);
    let m = size(n) as int;
    vstd::arithmetic::div_mod::lemma_mod_bound(m, p);
    vstd::arithmetic::div_mod::lemma_div_pos_is_pos(m, p);
    let whole = numeral((m / p) as nat);
    let mf = (m % p) as nat;
    let tail = fraction_text(mf, k);
    lemma_numeral_spells((m / p) as nat);
    lemma_fraction(mf, k);
    lemma_fraction_digits(mf, k);
    let s = standard(n, k);
    let body = whole + tail;
    assert(is_digit(whole[0]));
    assert(body[0] == whole[0]);
    if n < 0 {
        assert(s.drop_first() =~= body);
    } else {
        assert(s =~= body);
    }
    assert(unsigned(s) == body);
    let dot = whole.len() as int;
    assert forall|i: int| 0 <= i < body.len() implies (#[trigger] body[i]) != 'e' && body[i] != 'E'
        && (i < dot ==> body[i] != '.') by {
        if i < dot {
            assert(body[i] == whole[i]);
            assert(is_digit(whole[i]));
        } else {
            assert(body[i] == tail[i - dot]);
            if i > dot {
                assert(tail.skip(1)[i - dot - 1] == tail[i - dot]);
                assert(is_digit(tail.skip(1)[i - dot - 1]));
            }
        }
    }
    lemma_place_at(body, 'e', 'E', body.len() as int);
    assert(body.take(body.len() as int) =~= body);
    if tail.len() > 0 {
        assert(body[dot] == tail[0]);
    }
    lemma_place_at(body, '.', '.', dot);
    assert(body.take(dot) =~= whole);
    if tail.len() > 0 {
        assert(behind(body, dot) =~= tail.skip(1));
    }
}

proof fn lemma_fraction_digits(m: nat, k: nat)
    ensures
        fraction_text(m, k).len() > 0 ==> all_digits(fraction_text(m, k).skip(1)),
    decreases k,
{
    reveal_strlit("");
    reveal_strlit(".");
    if k > 0 {
        if m % 10 == 0 {
            lemma_fraction_digits(m / 10, (k - 1) as nat);
        } else {
            lemma_padded_spells(m, k);
            assert(fraction_text(m, k).skip(1) =~= padded(m, k));
        }
    }
}

/// Padded digits spell what they were cut from.
pub proof fn lemma_padded_value(n: nat, k: nat)
    ensures
        padded(n, k).len() == k,
        all_digits(padded(n, k)),
        n < pow10(k) ==> spelled(padded(n, k)) == n,
    decreases k,
{
    lemma_padded_spells(n, k);
    if k > 0 {
        let j = (k - 1) as nat;
        lemma_padded_value(n / 10, j);
        assert(padded(n, k).drop_last() =~= padded(n / 10, j));
        assert(padded(n, k).last() == digit_char((n % 10) as int));
    }
}

/// Whole digits, a point and more digits are read as they stand.
pub proof fn lemma_pointed_reads(neg: bool, whole: nat, frac: Seq<char>)
    requires
        all_digits(frac),
        frac.len() <= usize::MAX,
    ensures
        decimal_value(
            (if neg {
                "-"@
            } else {
                ""@
            }) + numeral(whole) + "."@ + frac,
        ) == Some(
            (
                (if neg {
                    -(whole * pow10(frac.len()) + spelled(frac))
                } else {
                    whole * pow10(frac.len()) + spelled(frac)
                }),
                frac.len(),
            ),
        ),
{
    reveal_strlit("-");
    reveal_strlit("");
    reveal_strlit(".");
    let w = numeral(whole);
    lemma_numeral_spells(whole);
    let body = w + "."@ + frac;
    let s = (if neg {
        "-"@
    } else {
        ""@
    }) + w + "."@ + frac;
    assert(is_digit(w[0]));
    assert(body[0] == w[0]);
    if neg {
        assert(s.drop_first() =~= body);
    } else {
        assert(s =~= body);
    }
    assert(unsigned(s) == body);
    assert(negative(s) == neg);
    let dot = w.len() as int;
    assert forall|i: int| 0 <= i < body.len() implies (#[trigger] body[i]) != 'e' && body[i] != 'E'
        && (i < dot ==> body[i] != '.') by {
        if i < dot {
            assert(body[i] == w[i]);
            assert(is_digit(w[i]));
        } else if i > dot {
            assert(body[i] == frac[i - dot - 1]);
            assert(is_digit(frac[i - dot - 1]));
        } else {
            assert(body[i] == '.');
        }
    }
    assert(body[dot] == '.');
    lemma_place_at(body, 'e', 'E', body.len() as int);
    assert(body.take(body.len() as int) =~= body);
    lemma_place_at(body, '.', '.', dot);
    assert(body.take(dot) =~= w);
    assert(behind(body, dot) =~= frac);
    lemma_spelled_joined(w, frac);
    let v = whole * pow10(frac.len()) + spelled(frac);
    assert(v * pow10(0) == v);
}

} // verus!
