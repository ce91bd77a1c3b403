//! Order ids: `x` and a number of microseconds that never repeats.
use crate::text::{lemma_numeral_injective, number, numeral};
use vstd::prelude::*;
use vstd::string::StringExecFns;

verus! {

/// The last number that was handed out.
pub struct IdClock {
    pub last: u64,
}

impl IdClock {
    pub fn new() -> (r: IdClock)
        ensures
            r.last == 0,
    {
        IdClock { last: 0 }
    }
}

/// The number after `last`, and not before `now`.
pub open spec fn next_id(last: u64, now: u64) -> int {
    if now > last {
        now as int
    } else {
        last + 1
    }
}

/// The id of a number.
pub open spec fn id_text(n: int) -> Seq<char> {
    "x"@ + numeral(n as nat)
}

/// The next number: the time in microseconds, moved on where it was used.
pub fn next_number(clock: &mut IdClock, now: u64) -> (r: u64)
    requires
        old(clock).last < u64::MAX,
    ensures
        r == next_id(old(clock).last, now),
        final(clock).last == r,
        r > old(clock).last,
{
    if now > clock.last {
        clock.last = now;
    } else {
        clock.last = clock.last + 1;
    }
    clock.last
}

/// The id of a number that was handed out.
pub fn id_of(n: u64) -> (r: String)
    ensures
        r@ == id_text(n as int),
{
    let mut s: String = "x".to_owned();
    s.append(number(n).as_str());
    s
}

/// A fresh order id, in a space of its own so that an order's owner can be told
/// from its id.
pub fn client_order_id(clock: &mut IdClock, now: u64) -> (r: String)
    requires
        old(clock).last < u64::MAX,
    ensures
        r@ == id_text(next_id(old(clock).last, now)),
        final(clock).last == next_id(old(clock).last, now),
        final(clock).last > old(clock).last,
{
    let n: u64 = next_number(clock, now);
    id_of(n)
}

/// Ids of different numbers differ, and every id starts with an `x`. As the
/// clock only moves on, no id is handed out twice.
pub proof fn law_ids_never_repeat(a: u64, b: u64)
    ensures
        id_text(a as int) == id_text(b as int) <==> a == b,
        id_text(a as int)[0] == 'x',
{
    reveal_strlit("x");
    let p = "x"@;
    assert(p.len() == 1);
    if id_text(a as int) == id_text(b as int) {
        assert(numeral(a as nat) =~= id_text(a as int).skip(1));
        assert(numeral(b as nat) =~= id_text(b as int).skip(1));
        lemma_numeral_injective(a as nat, b as nat);
    }
    assert(id_text(a as int)[0] == p[0]);
}

/// Whether a number was handed out next after the one before it in a row, which
/// began with the clock at `last`, at its time.
pub open spec fn follows(numbers: Seq<u64>, last: u64, nows: Seq<u64>, i: int) -> bool {
    numbers[i] == next_id(
        if i == 0 {
            last
        } else {
            numbers[i - 1]
        },
        nows[i],
    )
}

/// Whether numbers were handed out in a row, each at its time, by a clock that
/// stood at `last`.
pub open spec fn drawn(numbers: Seq<u64>, last: u64, nows: Seq<u64>) -> bool {
    &&& nows.len() == numbers.len()
    &&& forall|i: int| 0 <= i < numbers.len() ==> #[trigger] follows(numbers, last, nows, i)
}

/// The same time, `n` times.
pub open spec fn at_once(now: u64, n: nat) -> Seq<u64> {
    Seq::new(n, |i: int| now)
}

proof fn lemma_drawn_rise(numbers: Seq<u64>, last: u64, nows: Seq<u64>, i: int, j: int)
    requires
        drawn(numbers, last, nows),
        -1 <= i < j < numbers.len(),
    ensures
        (if i < 0 {
            last
        } else {
            numbers[i]
        }) < numbers[j],
    decreases j - i,
{
    assert(follows(numbers, last, nows, j));
    if i < j - 1 {
        lemma_drawn_rise(numbers, last, nows, i, j - 1);
    }
}

/// However many ids are handed out in a row, and whatever the time of day does
/// in between, each is above the clock that it began with and no two of them
/// are the same.
pub proof fn law_ids_in_a_row_are_distinct(numbers: Seq<u64>, last: u64, nows: Seq<u64>)
    requires
        drawn(numbers, last, nows),
    ensures
        forall|i: int| 0 <= i < numbers.len() ==> #[trigger] numbers[i] > last,
        forall|i: int, j: int|
            0 <= i < j < numbers.len() ==> #[trigger] numbers[i] < #[trigger] numbers[j],
        forall|i: int, j: int|
            0 <= i < j < numbers.len() ==> id_text(#[trigger] numbers[i] as int) != id_text(
                #[trigger] numbers[j] as int,
            ),
{
    assert forall|i: int| 0 <= i < numbers.len() implies #[trigger] numbers[i] > last by {
        lemma_drawn_rise(numbers, last, nows, -1, i);
    }
    assert forall|i: int, j: int| 0 <= i < j < numbers.len() implies #[trigger] numbers[i]
        < #[trigger] numbers[j] by {
        lemma_drawn_rise(numbers, last, nows, i, j);
    }
    assert forall|i: int, j: int| 0 <= i < j < numbers.len() implies id_text(
        #[trigger] numbers[i] as int,
    ) != id_text(#[trigger] numbers[j] as int) by {
        lemma_drawn_rise(numbers, last, nows, i, j);
        law_ids_never_repeat(numbers[i], numbers[j]);
    }
}

} // verus!
