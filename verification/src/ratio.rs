//! Exact arithmetic on fractions of any length, and the whole numbers on either
//! side of one.
use crate::decimal::{below, Ratio};
use crate::digits::{
    digits_of, divide, high_part, lemma_value_bound, less, minus, plus, pow10, times, times_ten_to,
    value,
};
use crate::money::{ceil_div, nearest, Px, ONE};
use vstd::prelude::*;

verus! {

/// The largest whole number that is told apart from larger ones: what a price in
/// millionths of a dollar can come to in a machine integer.
pub const FARTHEST: i64 = 9_000_000_000_000_000_000;

/// A bound past which a quotient need not be told apart.
const PAST: u64 = 10_000_000_000_000_000_000;

/// The largest whole number that is taken as a fraction.
pub const WHOLE_MAX: i128 = 1_000_000_000_000_000_000_000_000_000_000_000_000;

/// A whole number, or the farthest one that is told apart on its side.
pub open spec fn clamped(n: int) -> int {
    if n > FARTHEST {
        FARTHEST as int
    } else if n < -FARTHEST {
        -FARTHEST as int
    } else {
        n
    }
}

/// The difference of two fractions.
pub open spec fn less_by(a: (int, int), b: (int, int)) -> (int, int) {
    (a.0 * b.1 - b.0 * a.1, a.1 * b.1)
}

/// A fraction of a number of things.
pub open spec fn scaled(a: (int, int), k: int) -> (int, int) {
    (a.0 * k, a.1)
}

/// A fraction shared out among a number of things.
pub open spec fn shared(a: (int, int), k: int) -> (int, int) {
    (a.0, a.1 * k)
}

/// A price in millionths as a fraction of a dollar.
pub open spec fn dollars(p: int) -> (int, int) {
    (p, ONE as int)
}

/// A fraction times what it leaves of one.
pub open spec fn spread(a: (int, int)) -> (int, int) {
    (a.0 * (a.1 - a.0), a.1 * a.1)
}

/// The largest whole number at or below a fraction.
pub open spec fn down(a: (int, int)) -> int {
    clamped(a.0 / a.1)
}

/// The smallest whole number at or above a fraction.
pub open spec fn up(a: (int, int)) -> int {
    clamped(ceil_div(a.0, a.1))
}

/// The whole number nearest to a fraction, the even one of two.
pub open spec fn shown(a: (int, int)) -> int {
    clamped(nearest(a.0, a.1))
}

spec fn kept(n: int) -> int {
    if n > PAST {
        PAST as int
    } else if n < -PAST {
        -PAST as int
    } else {
        n
    }
}

fn clamp(n: i128) -> (r: i64)
    requires
        -PAST - 1 <= n <= PAST + 1,
    ensures
        r == clamped(n as int),
{
    if n > FARTHEST as i128 {
        FARTHEST
    } else if n < -(FARTHEST as i128) {
        -FARTHEST
    } else {
        n as i64
    }
}

fn wide_digits(n: u128) -> (r: Vec<u8>)
    requires
        n <= WHOLE_MAX,
    ensures
        crate::digits::digits(r@),
        value(r@) == n,
{
    let high: u64 = (n / 1_000_000_000_000_000_000) as u64;
    let low: u64 = (n % 1_000_000_000_000_000_000) as u64;
    proof {
        reveal_with_fuel(pow10, 19);
        assert(pow10(18) == 1_000_000_000_000_000_000);
        assert(high * pow10(18) == high * 1_000_000_000_000_000_000) by (nonlinear_arith)
            requires
                pow10(18) == 1_000_000_000_000_000_000,
        ;
    }
    plus(&times_ten_to(&digits_of(high), 18), &digits_of(low))
}

impl Ratio {
    /// A whole number.
    pub fn whole(n: i128) -> (r: Ratio)
        requires
            -WHOLE_MAX <= n <= WHOLE_MAX,
        ensures
            r.wf(),
            r.at() == (n as int, 1int),
    {
        if n < 0 {
            Ratio { up: Vec::new(), down: wide_digits((-n) as u128), den: digits_of(1) }
        } else {
            Ratio { up: wide_digits(n as u128), down: Vec::new(), den: digits_of(1) }
        }
    }

    /// A price in millionths of a dollar.
    pub fn dollars(p: Px) -> (r: Ratio)
        ensures
            r.wf(),
            r.at() == dollars(p as int),
    {
        let n: Ratio = Ratio::whole(p as i128);
        Ratio { up: n.up, down: n.down, den: digits_of(ONE as u64) }
    }

    /// The difference of two fractions.
    pub fn less_by(&self, b: &Ratio) -> (r: Ratio)
        requires
            self.wf(),
            b.wf(),
        ensures
            r.wf(),
            r.at() == less_by(self.at(), b.at()),
    {
        proof {
            let (u, d, x) = (value(self.up@), value(self.down@), value(self.den@));
            let (v, e, y) = (value(b.up@), value(b.down@), value(b.den@));
            assert((u * y + e * x) - (d * y + v * x) == (u - d) * y - (v - e) * x)
                by (nonlinear_arith);
            assert(x * y > 0) by (nonlinear_arith)
                requires
                    x > 0,
                    y > 0,
            ;
        }
        Ratio {
            up: plus(&times(&self.up, &b.den), &times(&b.down, &self.den)),
            down: plus(&times(&self.down, &b.den), &times(&b.up, &self.den)),
            den: times(&self.den, &b.den),
        }
    }

    /// A fraction of `k` things.
    pub fn scaled(&self, k: u128) -> (r: Ratio)
        requires
            self.wf(),
            k <= WHOLE_MAX,
        ensures
            r.wf(),
            r.at() == scaled(self.at(), k as int),
    {
        let n: Vec<u8> = wide_digits(k);
        proof {
            let (u, d) = (value(self.up@), value(self.down@));
            assert(u * k - d * k == (u - d) * k) by (nonlinear_arith);
        }
        Ratio {
            up: times(&self.up, &n),
            down: times(&self.down, &n),
            den: plus(&self.den, &Vec::new()),
        }
    }

    /// A fraction shared out among `k` things.
    pub fn shared(&self, k: u128) -> (r: Ratio)
        requires
            self.wf(),
            0 < k <= WHOLE_MAX,
        ensures
            r.wf(),
            r.at() == shared(self.at(), k as int),
    {
        proof {
            let x = value(self.den@);
            assert(x * k > 0) by (nonlinear_arith)
                requires
                    x > 0,
                    k > 0,
            ;
        }
        Ratio {
            up: plus(&self.up, &Vec::new()),
            down: plus(&self.down, &Vec::new()),
            den: times(&self.den, &wide_digits(k)),
        }
    }

    /// Whether a fraction is more than a whole number.
    pub fn above(&self, n: i128) -> (r: bool)
        requires
            self.wf(),
            -WHOLE_MAX <= n <= WHOLE_MAX,
        ensures
            r == (n * self.at().1 < self.at().0),
            r == below((n as int, 1int), self.at()),
    {
        Ratio::whole(n).below(self)
    }

    /// Whether a fraction is less than a whole number.
    pub fn under(&self, n: i128) -> (r: bool)
        requires
            self.wf(),
            -WHOLE_MAX <= n <= WHOLE_MAX,
        ensures
            r == (self.at().0 < n * self.at().1),
            r == below(self.at(), (n as int, 1int)),
    {
        self.below(&Ratio::whole(n))
    }

    /// A fraction times what it leaves of one.
    pub fn spread(&self) -> (r: Ratio)
        requires
            self.wf(),
        ensures
            r.wf(),
            r.at() == spread(self.at()),
    {
        proof {
            let (u, w, b) = (value(self.up@), value(self.down@), value(self.den@));
            assert((u * (b + w) + w * u) - (u * u + w * (b + w)) == (u - w) * (b - (u - w)))
                by (nonlinear_arith);
            assert(b * b > 0) by (nonlinear_arith)
                requires
                    b > 0,
            ;
        }
        let rest: Vec<u8> = plus(&self.den, &self.down);
        Ratio {
            up: plus(&times(&self.up, &rest), &times(&self.down, &self.up)),
            down: plus(&times(&self.up, &self.up), &times(&self.down, &rest)),
            den: times(&self.den, &self.den),
        }
    }

    /// The smallest whole number at or above a fraction, of any length.
    pub fn ceiling(&self) -> (r: Ratio)
        requires
            self.wf(),
        ensures
            r.wf(),
            r.at() == (ceil_div(self.at().0, self.at().1), 1int),
    {
        let ghost (x, d) = self.at();
        if !less(&self.up, &self.down) {
            let (q, rest): (Vec<u8>, Vec<u8>) = divide(&minus(&self.up, &self.down), &self.den);
            let ghost (n, s) = (value(q@), value(rest@));
            let up: Vec<u8> = if less(&Vec::new(), &rest) {
                plus(&q, &digits_of(1))
            } else {
                q
            };
            proof {
                if s == 0 {
                    assert((-n) * d == -(n * d)) by (nonlinear_arith);
                    vstd::arithmetic::div_mod::lemma_fundamental_div_mod_converse(-x, d, -n, 0);
                } else {
                    assert((-n - 1) * d == -(n * d) - d) by (nonlinear_arith);
                    vstd::arithmetic::div_mod::lemma_fundamental_div_mod_converse(
                        -x,
                        d,
                        -n - 1,
                        d - s,
                    );
                }
            }
            Ratio { up, down: Vec::new(), den: digits_of(1) }
        } else {
            let (q, rest): (Vec<u8>, Vec<u8>) = divide(&minus(&self.down, &self.up), &self.den);
            proof {
                vstd::arithmetic::div_mod::lemma_fundamental_div_mod_converse(
                    -x,
                    d,
                    value(q@),
                    value(rest@),
                );
            }
            Ratio { up: Vec::new(), down: q, den: digits_of(1) }
        }
    }

    /// The quotient of a fraction rounded down, and what is left over.
    fn apart(&self) -> (r: (i128, Vec<u8>))
        requires
            self.wf(),
        ensures
            r.0 == kept(self.at().0 / self.at().1),
            -PAST <= r.0 <= PAST,
            crate::digits::digits(r.1@),
            value(r.1@) == self.at().0 % self.at().1,
    {
        let ghost (x, d) = self.at();
        if !less(&self.up, &self.down) {
            let (q, rest): (Vec<u8>, Vec<u8>) = divide(&minus(&self.up, &self.down), &self.den);
            proof {
                vstd::arithmetic::div_mod::lemma_fundamental_div_mod_converse(
                    x,
                    d,
                    value(q@),
                    value(rest@),
                );
                assert(q@.skip(0) =~= q@);
            }
            let f: i128 = match high_part(&q, 0, PAST) {
                Some(n) => n as i128,
                None => PAST as i128,
            };
            (f, rest)
        } else {
            let (q, rest): (Vec<u8>, Vec<u8>) = divide(&minus(&self.down, &self.up), &self.den);
            let ghost (n, s) = (value(q@), value(rest@));
            assert(q@.skip(0) =~= q@);
            let size: i128 = match high_part(&q, 0, PAST) {
                Some(n) => n as i128,
                None => PAST as i128,
            };
            let exact: bool = !less(&Vec::new(), &rest);
            if exact {
                proof {
                    assert(-n * d == -(n * d)) by (nonlinear_arith);
                    vstd::arithmetic::div_mod::lemma_fundamental_div_mod_converse(x, d, -n, 0);
                }
                (-size, rest)
            } else {
                proof {
                    assert((-n - 1) * d == -(n * d) - d) by (nonlinear_arith);
                    vstd::arithmetic::div_mod::lemma_fundamental_div_mod_converse(
                        x,
                        d,
                        -n - 1,
                        d - s,
                    );
                }
                let f: i128 = if size == PAST as i128 {
                    -size
                } else {
                    -size - 1
                };
                (f, minus(&self.den, &rest))
            }
        }
    }

    /// The largest whole number at or below a fraction.
    pub fn down(&self) -> (r: i64)
        requires
            self.wf(),
        ensures
            r == down(self.at()),
    {
        clamp(self.apart().0)
    }

    /// The smallest whole number at or above a fraction.
    pub fn up(&self) -> (r: i64)
        requires
            self.wf(),
        ensures
            r == up(self.at()),
    {
        let (f, rest): (i128, Vec<u8>) = self.apart();
        let exact: bool = !less(&Vec::new(), &rest);
        proof {
            let (x, d) = self.at();
            lemma_value_bound(rest@);
            crate::money::lemma_ceil_div(x, d);
            vstd::arithmetic::div_mod::lemma_fundamental_div_mod(x, d);
            vstd::arithmetic::div_mod::lemma_mod_bound(x, d);
            let (q, c, m) = (x / d, ceil_div(x, d), x % d);
            assert(c == (if m == 0 {
                q
            } else {
                q + 1
            })) by (nonlinear_arith)
                requires
                    x == d * q + m,
                    0 <= m < d,
                    c * d >= x,
                    (c - 1) * d < x,
            ;
        }
        if exact {
            clamp(f)
        } else {
            clamp(f + 1)
        }
    }

    /// The whole number nearest to a fraction, the even one of two.
    pub fn shown(&self) -> (r: i64)
        requires
            self.wf(),
        ensures
            r == shown(self.at()),
    {
        let (f, rest): (i128, Vec<u8>) = self.apart();
        let twice: Vec<u8> = plus(&rest, &rest);
        let even: bool = if f >= 0 {
            f % 2 == 0
        } else {
            (-f) % 2 == 0
        };
        if less(&twice, &self.den) || (!less(&self.den, &twice) && even) {
            clamp(f)
        } else {
            clamp(f + 1)
        }
    }
}

} // verus!
