//! Verified helpers on strings: equality, order, prefixes, decimal numerals,
//! and sets of names kept as vectors.
use vstd::prelude::*;
use vstd::string::{StrSliceExecFns, StringExecFns};

verus! {

// ------------------------------------------------------------------ equality

/// Whether two strings hold the same characters.
pub fn same(a: &str, b: &str) -> (r: bool)
    ensures
        r == (a@ == b@),
{
    a.to_owned() == b.to_owned()
}

/// The characters of a string, as a vector.
pub fn chars_of(s: &str) -> (r: Vec<char>)
    ensures
        r@ == s@,
{
    let n: usize = s.unicode_len();
    let mut out: Vec<char> = Vec::new();
    let mut i: usize = 0;
    while i < n
        invariant
            i <= n == s@.len(),
            out@ == s@.take(i as int),
        decreases n - i,
    {
        out.push(s.get_char(i));
        i = i + 1;
    }
    assert(s@.take(n as int) == s@);
    out
}

/// Whether `p` opens `s`.
pub open spec fn opens(s: Seq<char>, p: Seq<char>) -> bool {
    p.len() <= s.len() && s.take(p.len() as int) == p
}

/// Whether `s` starts with `p`.
pub fn starts_with(s: &str, p: &str) -> (r: bool)
    ensures
        r == opens(s@, p@),
{
    let n: usize = p.unicode_len();
    if n > s.unicode_len() {
        return false;
    }
    let head: &str = s.substring_char(0, n);
    assert(s@.subrange(0, n as int) == s@.take(n as int));
    same(head, p)
}

// --------------------------------------------------------------------- order

/// Lexicographic order by code point, which is the order of `str`.
pub open spec fn before(a: Seq<char>, b: Seq<char>) -> bool
    decreases a.len(),
{
    if b.len() == 0 {
        false
    } else if a.len() == 0 {
        true
    } else if a[0] != b[0] {
        a[0] < b[0]
    } else {
        before(a.drop_first(), b.drop_first())
    }
}

proof fn lemma_before_skip(a: Seq<char>, b: Seq<char>, k: nat)
    requires
        k <= a.len(),
        k <= b.len(),
        a.take(k as int) == b.take(k as int),
    ensures
        before(a, b) == before(a.skip(k as int), b.skip(k as int)),
    decreases k,
{
    if k == 0 {
        assert(a.skip(0) == a);
        assert(b.skip(0) == b);
    } else {
        assert(a[0] == a.take(k as int)[0]);
        assert(b[0] == b.take(k as int)[0]);
        let a1 = a.drop_first();
        let b1 = b.drop_first();
        assert forall|i: int| 0 <= i < k - 1 implies a1[i] == b1[i] by {
            assert(a.take(k as int)[i + 1] == a[i + 1]);
            assert(b.take(k as int)[i + 1] == b[i + 1]);
        }
        assert(a1.take(k - 1) =~= b1.take(k - 1));
        lemma_before_skip(a1, b1, (k - 1) as nat);
        assert(a1.skip(k - 1) =~= a.skip(k as int));
        assert(b1.skip(k - 1) =~= b.skip(k as int));
    }
}

/// Whether `a` sorts strictly before `b`.
pub fn sorts_before(a: &str, b: &str) -> (r: bool)
    ensures
        r == before(a@, b@),
{
    let x: Vec<char> = chars_of(a);
    let y: Vec<char> = chars_of(b);
    let mut i: usize = 0;
    while i < x.len() && i < y.len()
        invariant
            i <= x.len(),
            i <= y.len(),
            x@ == a@,
            y@ == b@,
            x@.take(i as int) == y@.take(i as int),
        decreases x.len() - i,
    {
        proof {
            lemma_before_skip(x@, y@, i as nat);
            assert(x@.skip(i as int)[0] == x@[i as int]);
            assert(y@.skip(i as int)[0] == y@[i as int]);
        }
        if x[i] != y[i] {
            return x[i] < y[i];
        }
        assert(x@.take(i + 1) =~= x@.take(i as int).push(x@[i as int]));
        assert(y@.take(i + 1) =~= y@.take(i as int).push(y@[i as int]));
        i = i + 1;
    }
    proof {
        lemma_before_skip(x@, y@, i as nat);
    }
    i < y.len()
}

/// The order is irreflexive.
pub proof fn lemma_before_irreflexive(a: Seq<char>)
    ensures
        !before(a, a),
    decreases a.len(),
{
    if a.len() > 0 {
        lemma_before_irreflexive(a.drop_first());
    }
}

/// Of two different strings one sorts before the other, and only one.
pub proof fn lemma_before_total(a: Seq<char>, b: Seq<char>)
    ensures
        a != b ==> (before(a, b) || before(b, a)),
        !(before(a, b) && before(b, a)),
    decreases a.len(),
{
    if a.len() > 0 && b.len() > 0 {
        lemma_before_total(a.drop_first(), b.drop_first());
        if a[0] == b[0] && a.drop_first() == b.drop_first() {
            assert(a =~= seq![a[0]] + a.drop_first());
            assert(b =~= seq![b[0]] + b.drop_first());
            assert(a == b);
        }
    } else if a.len() == 0 && b.len() == 0 {
        assert(a =~= b);
    }
}

/// The order is transitive.
pub proof fn lemma_before_transitive(a: Seq<char>, b: Seq<char>, c: Seq<char>)
    requires
        before(a, b),
        before(b, c),
    ensures
        before(a, c),
    decreases a.len(),
{
    if a.len() > 0 && b.len() > 0 && c.len() > 0 && a[0] == b[0] && b[0] == c[0] {
        lemma_before_transitive(a.drop_first(), b.drop_first(), c.drop_first());
    }
}

// ------------------------------------------------------------------ numerals

/// The character of a decimal digit.
pub open spec fn digit_char(d: int) -> char {
    ('0' as u32 + d) as char
}

/// The decimal numeral of a natural number.
pub open spec fn numeral(n: nat) -> Seq<char>
    decreases n,
{
    if n < 10 {
        seq![digit_char(n as int)]
    } else {
        numeral(n / 10).push(digit_char((n % 10) as int))
    }
}

/// The last `k` decimal digits of `n`, with leading zeros.
pub open spec fn padded(n: nat, k: nat) -> Seq<char>
    decreases k,
{
    if k == 0 {
        Seq::empty()
    } else {
        padded(n / 10, (k - 1) as nat).push(digit_char((n % 10) as int))
    }
}

fn digit_str(d: u64) -> (r: &'static str)
    requires
        d < 10,
    ensures
        r@ == seq![digit_char(d as int)],
{
    proof {
        reveal_strlit("0");
        reveal_strlit("1");
        reveal_strlit("2");
        reveal_strlit("3");
        reveal_strlit("4");
        reveal_strlit("5");
        reveal_strlit("6");
        reveal_strlit("7");
        reveal_strlit("8");
        reveal_strlit("9");
    }
    if d == 0 {
        "0"
    } else if d == 1 {
        "1"
    } else if d == 2 {
        "2"
    } else if d == 3 {
        "3"
    } else if d == 4 {
        "4"
    } else if d == 5 {
        "5"
    } else if d == 6 {
        "6"
    } else if d == 7 {
        "7"
    } else if d == 8 {
        "8"
    } else {
        "9"
    }
}

/// The decimal numeral of `n`.
pub fn number(n: u64) -> (r: String)
    ensures
        r@ == numeral(n as nat),
    decreases n,
{
    if n < 10 {
        digit_str(n).to_owned()
    } else {
        let mut s: String = number(n / 10);
        s.append(digit_str(n % 10));
        assert(s@ =~= numeral(n as nat));
        s
    }
}

/// The decimal numeral of an integer, with a minus sign where it is negative.
pub open spec fn signed_numeral(n: int) -> Seq<char> {
    if n < 0 {
        "-"@ + numeral((-n) as nat)
    } else {
        numeral(n as nat)
    }
}

/// The decimal numeral of a signed number.
pub fn signed_number(n: i64) -> (r: String)
    ensures
        r@ == signed_numeral(n as int),
{
    if n < 0 {
        let mut s: String = "-".to_owned();
        let m: u64 = (-(n as i128)) as u64;
        s.append(number(m).as_str());
        s
    } else {
        number(n as u64)
    }
}

/// The last `k` decimal digits of `n`.
pub fn padded_number(n: u64, k: u32) -> (r: String)
    ensures
        r@ == padded(n as nat, k as nat),
    decreases k,
{
    if k == 0 {
        String::new()
    } else {
        let mut s: String = padded_number(n / 10, k - 1);
        s.append(digit_str(n % 10));
        assert(s@ =~= padded(n as nat, k as nat));
        s
    }
}

/// Whether a character is a decimal digit.
pub open spec fn is_digit(c: char) -> bool {
    '0' <= c <= '9'
}

/// Whether every character is a decimal digit.
pub open spec fn all_digits(s: Seq<char>) -> bool {
    forall|i: int| 0 <= i < s.len() ==> is_digit(#[trigger] s[i])
}

/// The number that a sequence of digits spells.
pub open spec fn spelled(s: Seq<char>) -> int
    decreases s.len(),
{
    if s.len() == 0 {
        0
    } else {
        spelled(s.drop_last()) * 10 + (s.last() as u32 - '0' as u32)
    }
}

/// A numeral is made of digits, is not empty, and spells its number.
pub proof fn lemma_numeral_spells(n: nat)
    ensures
        all_digits(numeral(n)),
        numeral(n).len() > 0,
        spelled(numeral(n)) == n,
    decreases n,
{
    if n >= 10 {
        lemma_numeral_spells(n / 10);
        assert(numeral(n).drop_last() =~= numeral(n / 10));
    } else {
        let s = numeral(n);
        assert(s.drop_last() =~= Seq::<char>::empty());
        assert(spelled(s.drop_last()) == 0);
    }
}

/// Different numbers have different numerals.
pub proof fn lemma_numeral_injective(a: nat, b: nat)
    requires
        numeral(a) == numeral(b),
    ensures
        a == b,
{
    lemma_numeral_spells(a);
    lemma_numeral_spells(b);
}

/// What a sequence of characters spells as an unsigned number, with an
/// optional plus sign: the values `u64` can hold, and nothing else.
pub open spec fn as_unsigned(s: Seq<char>) -> Option<int> {
    let body = if s.len() > 0 && s[0] == '+' { s.drop_first() } else { s };
    if body.len() > 0 && all_digits(body) && spelled(body) <= u64::MAX {
        Some(spelled(body))
    } else {
        None
    }
}

/// What a sequence of characters spells as a signed number.
pub open spec fn as_signed(s: Seq<char>) -> Option<int> {
    let neg = s.len() > 0 && s[0] == '-';
    let body = if s.len() > 0 && (s[0] == '+' || s[0] == '-') { s.drop_first() } else { s };
    if body.len() > 0 && all_digits(body) && (if neg { spelled(body) <= -i64::MIN } else { spelled(body) <= i64::MAX }) {
        Some(if neg { -spelled(body) } else { spelled(body) })
    } else {
        None
    }
}

proof fn lemma_spelled_grows(s: Seq<char>, i: int)
    requires
        0 <= i <= s.len(),
        all_digits(s),
    ensures
        0 <= spelled(s.take(i)) <= spelled(s),
    decreases s.len() - i,
{
    if i < s.len() {
        lemma_spelled_grows(s, i + 1);
        assert(s.take(i + 1).drop_last() =~= s.take(i));
        assert(is_digit(s[i]));
        lemma_spelled_nonneg(s.take(i));
    } else {
        assert(s.take(i) =~= s);
        lemma_spelled_nonneg(s);
    }
}

proof fn lemma_spelled_nonneg(s: Seq<char>)
    requires
        all_digits(s),
    ensures
        spelled(s) >= 0,
    decreases s.len(),
{
    if s.len() > 0 {
        assert(is_digit(s.last()));
        assert(all_digits(s.drop_last()));
        lemma_spelled_nonneg(s.drop_last());
    }
}

/// The digits `v[from..]` as a number, if they are digits and it does not
/// exceed `max`.
pub fn digits_value(v: &Vec<char>, from: usize, to: usize, max: u64) -> (r: Option<u64>)
    requires
        from <= to <= v@.len(),
    ensures
        r == (if all_digits(v@.subrange(from as int, to as int)) && spelled(
            v@.subrange(from as int, to as int),
        ) <= max {
            Some(spelled(v@.subrange(from as int, to as int)) as u64)
        } else {
            None
        }),
{
    let ghost body = v@.subrange(from as int, to as int);
    let mut n: u64 = 0;
    let mut i: usize = from;
    while i < to
        invariant
            from <= i <= to <= v@.len(),
            body == v@.subrange(from as int, to as int),
            all_digits(body.take(i - from)),
            n == spelled(body.take(i - from)),
            n <= max,
        decreases to - i,
    {
        let c: char = v[i];
        let ghost k: int = i - from;
        assert(body[k] == c);
        assert(body.take(k + 1).drop_last() =~= body.take(k));
        assert(body.take(k + 1).last() == c);
        if c < '0' || c > '9' {
            assert(!is_digit(body[k]));
            return None;
        }
        let d: u64 = (c as u32 - '0' as u32) as u64;
        let next: u128 = (n as u128) * 10 + d as u128;
        assert(next == spelled(body.take(k + 1)));
        if next > max as u128 {
            proof {
                if all_digits(body) {
                    lemma_spelled_grows(body, k + 1);
                }
            }
            return None;
        }
        n = next as u64;
        i = i + 1;
    }
    assert(body.take(to - from) =~= body);
    Some(n)
}

/// Reads an unsigned number.
pub fn parse_unsigned(s: &str) -> (r: Option<u64>)
    ensures
        r == (match as_unsigned(s@) {
            Some(n) => Some(n as u64),
            None => None,
        }),
{
    let v: Vec<char> = chars_of(s);
    if v.len() == 0 {
        return None;
    }
    let from: usize = if v[0] == '+' { 1 } else { 0 };
    proof {
        let body = if s@[0] == '+' { s@.drop_first() } else { s@ };
        assert(v@.subrange(from as int, v@.len() as int) =~= body);
    }
    if from == v.len() {
        return None;
    }
    digits_value(&v, from, v.len(), u64::MAX)
}

/// Reads a signed number.
pub fn parse_signed(s: &str) -> (r: Option<i64>)
    ensures
        r == (match as_signed(s@) {
            Some(n) => Some(n as i64),
            None => None,
        }),
{
    let v: Vec<char> = chars_of(s);
    if v.len() == 0 {
        return None;
    }
    let neg: bool = v[0] == '-';
    let from: usize = if neg || v[0] == '+' { 1 } else { 0 };
    let ghost body = if s@[0] == '+' || s@[0] == '-' { s@.drop_first() } else { s@ };
    assert(v@.subrange(from as int, v@.len() as int) =~= body);
    if from == v.len() {
        return None;
    }
    let max: u64 = if neg { 9_223_372_036_854_775_808 } else { 9_223_372_036_854_775_807 };
    match digits_value(&v, from, v.len(), max) {
        Some(n) => {
            proof {
                lemma_spelled_nonneg(body);
            }
            Some(if neg { (-(n as i128)) as i64 } else { n as i64 })
        },
        None => None,
    }
}

// ------------------------------------------------------------- sets of names

/// Whether a name stands in a list of names.
pub open spec fn listed(names: Seq<String>, name: Seq<char>) -> bool {
    exists|i: int| 0 <= i < names.len() && (#[trigger] names[i])@ == name
}

/// Whether no name stands in the list twice.
pub open spec fn distinct(names: Seq<String>) -> bool {
    forall|i: int, j: int|
        0 <= i < j < names.len() ==> (#[trigger] names[i])@ != (#[trigger] names[j])@
}

/// Whether `name` is in the list.
pub fn is_listed(names: &Vec<String>, name: &str) -> (r: bool)
    ensures
        r == listed(names@, name@),
{
    let mut i: usize = 0;
    while i < names.len()
        invariant
            i <= names.len(),
            forall|j: int| 0 <= j < i ==> (#[trigger] names@[j])@ != name@,
        decreases names.len() - i,
    {
        if same(names[i].as_str(), name) {
            return true;
        }
        i = i + 1;
    }
    false
}

/// The list with a name added where it was not in it yet.
pub open spec fn with_name(names: Seq<String>, name: Seq<char>, after: Seq<String>) -> bool {
    if listed(names, name) {
        after == names
    } else {
        &&& after.len() == names.len() + 1
        &&& after.take(names.len() as int) == names
        &&& after.last()@ == name
    }
}

/// Adds a name to a list of distinct names.
pub fn add_name(names: &mut Vec<String>, name: &str)
    ensures
        with_name(old(names)@, name@, final(names)@),
        distinct(old(names)@) ==> distinct(final(names)@),
        forall|n: Seq<char>| #[trigger]
            listed(final(names)@, n) <==> (listed(old(names)@, n) || n == name@),
{
    if is_listed(names, name) {
        return;
    }
    let ghost before = names@;
    names.push(name.to_owned());
    proof {
        assert(names@.take(before.len() as int) =~= before);
        assert forall|n: Seq<char>| #[trigger]
            listed(names@, n) <==> (listed(before, n) || n == name@) by {
            if listed(before, n) {
                let i = choose|i: int| 0 <= i < before.len() && (#[trigger] before[i])@ == n;
                assert(names@[i]@ == n);
            }
            if n == name@ {
                assert(names@[before.len() as int]@ == n);
            }
        }
    }
}

/// A copy of a list of names.
pub fn copy_names(names: &Vec<String>) -> (r: Vec<String>)
    ensures
        r@ == names@,
{
    let mut out: Vec<String> = Vec::new();
    let mut i: usize = 0;
    while i < names.len()
        invariant
            i <= names.len(),
            out@ == names@.take(i as int),
        decreases names.len() - i,
    {
        out.push(names[i].clone());
        i = i + 1;
    }
    assert(names@.take(names@.len() as int) =~= names@);
    out
}

} // verus!
