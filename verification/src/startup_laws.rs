//! What must hold before a run may touch a venue, and what numbers a text spells.
use crate::args::{Args, ArgsView};
use crate::board::seconds;
use crate::decimal::{
    behind, coefficient_of, fraction_of, lemma_place_at, negative, place, unsigned, EXPONENT_MAX,
};
use crate::digits::pow10;
use crate::money::{lemma_nearest, nearest};
use crate::snapshot::filed;
use crate::policy::{configured, bar_in_force, RunCfg};
use crate::startup::{
    balances, cancel_missing, exit_mode, place_missing, pmus_key, recon_mode, selects, swept,
    value_of, SweepResult,
};
use crate::text::{
    all_digits, as_signed, as_unsigned, before, is_digit, lemma_before_total,
    lemma_before_transitive, lemma_numeral_spells, numeral, signed_numeral, spelled,
};
use vstd::prelude::*;

verus! {

/// A run may cancel exactly where it is not on a tape and both venues' credentials
/// can be had.
pub proof fn law_a_run_may_cancel_with_both_credentials(
    bench: bool,
    kalshi: Option<Seq<char>>,
    pmus: Option<Seq<char>>,
)
    ensures
        cancel_missing(bench, kalshi, pmus).len() == 0 <==> !bench && kalshi is None && pmus is None,
        cancel_missing(bench, kalshi, pmus).len() == (if bench {
            1int
        } else {
            0
        }) + (if kalshi is Some {
            1int
        } else {
            0
        }) + (if pmus is Some {
            1int
        } else {
            0
        }),
{
}

/// A run may place exactly where it has a live feed, cash, a watch on the feed and
/// a ledger that can be read.
pub proof fn law_a_run_may_place_on_a_watched_feed_with_cash(
    a: ArgsView,
    ledger: Option<Seq<char>>,
)
    ensures
        place_missing(a, ledger).len() == 0 <==> {
            &&& a.feed.socket is Some
            &&& a.orders.balances.len() > 0
            &&& a.files.health.len() > 0
            &&& ledger is None
        },
{
}

/// The value under a key is that of the first pair that has it.
pub proof fn law_the_first_of_a_key_counts(
    pairs: Seq<(Seq<char>, Seq<char>)>,
    a: Seq<char>,
    b: Seq<char>,
    i: int,
)
    requires
        0 <= i < pairs.len(),
        pairs[i].0 == a || pairs[i].0 == b,
        forall|j: int| 0 <= j < i ==> (#[trigger] pairs[j]).0 != a && pairs[j].0 != b,
    ensures
        value_of(pairs, a, b) == Some(pairs[i].1),
    decreases i,
{
    if i > 0 {
        assert(pairs[0].0 != a && pairs[0].0 != b);
        let rest = pairs.drop_first();
        assert forall|j: int| 0 <= j < i - 1 implies (#[trigger] rest[j]).0 != a && rest[j].0
            != b by {
            assert(rest[j] == pairs[j + 1]);
        }
        law_the_first_of_a_key_counts(rest, a, b, i - 1);
    }
}

proof fn lemma_no_value(pairs: Seq<(Seq<char>, Seq<char>)>, a: Seq<char>, b: Seq<char>)
    requires
        forall|j: int| 0 <= j < pairs.len() ==> (#[trigger] pairs[j]).0 != a && pairs[j].0 != b,
    ensures
        value_of(pairs, a, b) is None,
    decreases pairs.len(),
{
    if pairs.len() > 0 {
        assert(pairs[0].0 != a);
        let rest = pairs.drop_first();
        assert forall|j: int| 0 <= j < rest.len() implies (#[trigger] rest[j]).0 != a && rest[j].0
            != b by {
            assert(rest[j] == pairs[j + 1]);
        }
        lemma_no_value(rest, a, b);
    }
}

/// The credentials of PM-US go by the short name, wherever it stands, and by the
/// long one only where the short one is not there.
pub proof fn law_the_short_name_of_a_venue_comes_first(
    pairs: Seq<(Seq<char>, Seq<char>)>,
    i: int,
)
    requires
        0 <= i < pairs.len(),
        pairs[i].0 == "pmus"@,
        forall|j: int| 0 <= j < i ==> (#[trigger] pairs[j]).0 != "pmus"@,
    ensures
        pmus_key(pairs) == Some(pairs[i].1),
{
    law_the_first_of_a_key_counts(pairs, "pmus"@, "pmus"@, i);
}

/// Without the short name the first of the long one counts.
pub proof fn law_the_long_name_of_a_venue_is_read_too(
    pairs: Seq<(Seq<char>, Seq<char>)>,
    i: int,
)
    requires
        0 <= i < pairs.len(),
        pairs[i].0 == "polymarket_us"@,
        forall|j: int| 0 <= j < i ==> (#[trigger] pairs[j]).0 != "polymarket_us"@,
        forall|j: int| 0 <= j < pairs.len() ==> (#[trigger] pairs[j]).0 != "pmus"@,
    ensures
        pmus_key(pairs) == Some(pairs[i].1),
{
    lemma_no_value(pairs, "pmus"@, "pmus"@);
    law_the_first_of_a_key_counts(pairs, "polymarket_us"@, "polymarket_us"@, i);
}

/// A run starts on books that were swept exactly where no venue's sweep failed, and
/// then it names those that could not confirm.
pub proof fn law_a_run_starts_where_no_sweep_failed(venues: Seq<(String, SweepResult)>, n: nat)
    requires
        n <= venues.len(),
    ensures
        swept(venues, n) is Ok <==> forall|i: int|
            0 <= i < n ==> !((#[trigger] venues[i]).1 is Failed),
        swept(venues, n) matches Ok(list) ==> (list.len() == 0 <==> forall|i: int|
            0 <= i < n ==> !((#[trigger] venues[i]).1 is Unconfirmed)),
    decreases n,
{
    if n > 0 {
        law_a_run_starts_where_no_sweep_failed(venues, (n - 1) as nat);
        let v = venues[n - 1].1;
        if v is Failed || v is Unconfirmed {
            assert(venues[n - 1].1 is Failed || venues[n - 1].1 is Unconfirmed);
        }
    }
}

/// Where both venues answered, each figure stands under its own venue's name.
pub proof fn law_each_figure_is_its_own_venues(k: Seq<char>, p: Seq<char>)
    ensures
        balances(Ok(k), Ok(p)) matches Ok(v) && v.len() == 2 && v[0] == ("kalshi"@, k) && v[1] == (
            "polymarket_us"@,
            p,
        ),
{
}

/// What a run is configured for. It books where it has handles and is armed. Off a
/// tape it watches the health file, where one is named, retries hedges, and does
/// what its flags say: takes where it is told to, and only detects where it is told
/// that too or is not armed; reports unwinds; writes marks; and shows its view to
/// the exit pass, whether that acts or shows.
pub proof fn law_a_run_does_what_its_flags_say(
    r: RunCfg,
    a: Args,
    bench: bool,
    armed: bool,
    has_executors: bool,
    undischarged: u64,
    toxgate: Option<String>,
)
    requires
        configured(r, a, bench, armed, has_executors, undischarged, toxgate),
    ensures
        r.ledger_path is Some <==> has_executors && armed,
        r.ledger_path matches Some(p) ==> p == a.files.ledger,
        r.health_file is Some <==> !bench && a.files.health@.len() > 0,
        r.health_file matches Some(p) ==> p == a.files.health,
        r.hedge_retry is Some <==> !bench,
        r.hedge_retry matches Some(x) ==> x.interval_s == a.policy.hedge_retry_s && x.max_slip
            == a.policy.hedge_max_slip && x.alarm_after_s == a.policy.hedge_alarm_s,
        r.take_take is Some <==> !bench && a.modes.take_take,
        r.take_take matches Some(t) ==> (t.detect_only <==> a.modes.tt_detect_only || !armed)
            && t.max_ct_per_rel == a.modes.tt_max_ct_per_rel && t.max_clip == a.modes.tt_max_clip,
        r.unwind is Some <==> !bench && a.modes.unwind_detect_only,
        r.marks_out is Some <==> !bench && a.files.marks_out is Some,
        r.maker_exit_view <==> !bench && (a.modes.maker_exit || a.modes.maker_exit_shadow),
        r.hedges_undischarged == undischarged,
        r.kill_file == a.files.kill_file,
        r.armed == armed,
{
}

// ------------------------------------------------------------------- numbers

/// A number that is written is read back.
pub proof fn law_a_number_is_read_back(n: int)
    ensures
        0 <= n <= u64::MAX ==> as_unsigned(numeral(n as nat)) == Some(n),
        i64::MIN <= n <= i64::MAX ==> as_signed(signed_numeral(n)) == Some(n),
{
    let m = if n < 0 {
        (-n) as nat
    } else {
        n as nat
    };
    lemma_numeral_spells(m);
    let t = numeral(m);
    assert(crate::text::is_digit(t[0]));
    reveal_strlit("-");
    let s = "-"@ + t;
    assert("-"@.len() == 1 && "-"@[0] == '-');
    assert(s[0] == '-');
    assert(s.drop_first() =~= t);
}

/// A minus sign in front of a price turns it round, and a plus sign does nothing.
pub proof fn law_a_sign_turns_a_price_round(s: Seq<char>)
    requires
        s.len() > 0,
        s[0] != '-',
        s[0] != '+',
    ensures
        fraction_of(seq!['+'] + s) == fraction_of(s),
        match fraction_of(s) {
            Some((n, d)) => fraction_of(seq!['-'] + s) == Some((-n, d)),
            None => fraction_of(seq!['-'] + s) is None,
        },
{
    let (m, p) = (seq!['-'] + s, seq!['+'] + s);
    assert(m[0] == '-' && p[0] == '+');
    assert(m.drop_first() =~= s);
    assert(p.drop_first() =~= s);
    assert(unsigned(m) == s && unsigned(p) == s && unsigned(s) == s);
}

/// A number is rounded to the nearest whole one, and half way between two to the
/// even one.
pub proof fn law_a_half_is_rounded_to_the_even_one(q: int, r: int, b: int)
    requires
        b > 0,
        0 <= r < b,
    ensures
        2 * r < b ==> nearest(q * b + r, b) == q,
        2 * r > b ==> nearest(q * b + r, b) == q + 1,
        2 * r == b ==> nearest(q * b + r, b) % 2 == 0 && q <= nearest(q * b + r, b) <= q + 1,
{
    vstd::arithmetic::div_mod::lemma_fundamental_div_mod_converse(q * b + r, b, q, r);
}

/// Digits behind an exponent mark move the point: to the right where they are
/// positive, and to the left behind a minus sign.
pub proof fn law_an_exponent_moves_the_point(c: Seq<char>, k: nat)
    requires
        c.len() > 0,
        all_digits(c),
        k <= EXPONENT_MAX,
    ensures
        fraction_of(c) == Some((spelled(c), 1int)),
        fraction_of(c + seq!['e'] + numeral(k)) == Some((spelled(c) * pow10(k), 1int)),
        fraction_of(c + seq!['e'] + (seq!['-'] + numeral(k))) == Some((spelled(c), pow10(k))),
{
    lemma_numeral_spells(k);
    let t = numeral(k);
    let m = seq!['-'] + t;
    let n = c.len() as int;
    assert(is_digit(c[0]));
    assert(is_digit(t[0]));
    assert forall|i: int| 0 <= i < n implies (#[trigger] c[i]) != 'e' && c[i] != 'E' && c[i]
        != '.' by {
        assert(is_digit(c[i]));
    }
    lemma_plain(c);
    lemma_marked(c, t);
    lemma_marked(c, m);
    assert(m[0] == '-');
    assert(m.drop_first() =~= t);
    reveal_with_fuel(pow10, 2);
    let s = spelled(c);
    assert(s * 1 == s);
}

/// Digits alone are a coefficient without a point.
proof fn lemma_plain(c: Seq<char>)
    requires
        c.len() > 0,
        all_digits(c),
    ensures
        coefficient_of(c) == Some((spelled(c), 0nat)),
        place(c, 'e', 'E') == c.len(),
        unsigned(c) == c,
        !negative(c),
        c.take(c.len() as int) == c,
{
    assert forall|i: int| 0 <= i < c.len() implies (#[trigger] c[i]) != 'e' && c[i] != 'E' && c[i]
        != '.' by {
        assert(is_digit(c[i]));
    }
    lemma_place_at(c, '.', '.', c.len() as int);
    lemma_place_at(c, 'e', 'E', c.len() as int);
    assert(c.take(c.len() as int) =~= c);
    assert(c + Seq::<char>::empty() =~= c);
    assert(is_digit(c[0]));
}

/// Where the mark stands behind digits.
proof fn lemma_marked(c: Seq<char>, t: Seq<char>)
    requires
        c.len() > 0,
        all_digits(c),
    ensures
        ({
            let s = c + seq!['e'] + t;
            &&& place(s, 'e', 'E') == c.len()
            &&& s.take(c.len() as int) == c
            &&& behind(s, c.len() as int) == t
            &&& unsigned(s) == s
            &&& !negative(s)
        }),
{
    let s = c + seq!['e'] + t;
    let n = c.len() as int;
    assert forall|i: int| 0 <= i < n implies (#[trigger] s[i]) != 'e' && s[i] != 'E' by {
        assert(s[i] == c[i]);
        assert(is_digit(c[i]));
    }
    assert(s[n] == 'e');
    lemma_place_at(s, 'e', 'E', n);
    assert(s.take(n) =~= c);
    assert(s.skip(n + 1) =~= t);
    assert(is_digit(c[0]));
    assert(s[0] == c[0]);
}

/// A pass acts where it is told to and not told to show, shows where it is told
/// that, and is off where it is told neither.
pub proof fn law_a_pass_does_what_its_two_flags_say(act: bool, shadow: bool)
    ensures
        selects(act, shadow) == Some(true) <==> shadow,
        selects(act, shadow) == Some(false) <==> act && !shadow,
        selects(act, shadow) is None <==> !act && !shadow,
{
}

/// The exit pass places only where it is told to act and not to show, has a handle
/// on both venues, and some relationship stands on both; it shows only under the
/// same conditions, where it is told that.
pub proof fn law_the_exit_pass_starts_where_it_can_close(
    act: bool,
    shadow: bool,
    kalshi: bool,
    pmus: bool,
    pairs: int,
)
    ensures
        exit_mode(act, shadow, kalshi, pmus, pairs) is Armed <==> act && !shadow && kalshi && pmus
            && pairs != 0,
        exit_mode(act, shadow, kalshi, pmus, pairs) is Shadow <==> shadow && kalshi && pmus && pairs
            != 0,
        exit_mode(act, shadow, kalshi, pmus, pairs) is Off <==> !act && !shadow,
        exit_mode(act, shadow, kalshi, pmus, pairs) is NoHandles <==> (act || shadow) && !(kalshi
            && pmus),
{
}

/// The pass that reconciles positions places only where it runs, is told to act and
/// not to show, has a handle on both venues, and some relationship stands on both.
/// Told to act and not to run, it does nothing.
pub proof fn law_the_recon_pass_acts_only_where_it_runs(
    runs: bool,
    act: bool,
    shadow: bool,
    kalshi: bool,
    pmus: bool,
    pairs: int,
)
    ensures
        ({
            let r = recon_mode(runs, act, shadow, kalshi, pmus, pairs);
            let able = runs && kalshi && pmus && pairs != 0;
            &&& r is Armed <==> able && act && !shadow
            &&& r is Shadow <==> able && shadow
            &&& r is Detect <==> able && !act && !shadow
            &&& r is Ignored <==> !runs && (act || shadow)
            &&& r is Off <==> !runs && !act && !shadow
            &&& r is NoHandles <==> runs && !(kalshi && pmus)
        }),
{
}

/// A hurdle that was given is in force whatever the book; without one it floats
/// with the utilization between four and sixteen percent; and there is none where
/// the utilization is not known.
pub proof fn law_a_given_hurdle_is_in_force(min_apr: Option<i64>, util: Option<i64>)
    ensures
        min_apr matches Some(x) ==> bar_in_force(min_apr, util) == x,
        min_apr is None && util is None ==> bar_in_force(min_apr, util) == 0,
        min_apr is None ==> (util matches Some(u) ==> 4_000_000 <= bar_in_force(min_apr, util)
            <= 16_000_000 && (0 <= u <= 1_000_000 ==> bar_in_force(min_apr, util) == 4_000_000 + 12 * u)),
{
}

/// An age is shown to the nearest second.
pub proof fn law_an_age_is_shown_to_the_nearest_second(ns: u64)
    ensures
        -500_000_000 <= seconds(ns as int) * 1_000_000_000 - ns <= 500_000_000,
{
    lemma_nearest(ns as int, 1_000_000_000);
}

/// Whether figures stand in the order of their names, each name once.
pub open spec fn in_order(m: Seq<(Seq<char>, Seq<char>)>) -> bool {
    forall|i: int, j: int| 0 <= i < j < m.len() ==> before((#[trigger] m[i]).0, (#[trigger] m[j]).0)
}

/// A figure that is filed leaves the figures in the order of their names.
pub proof fn law_figures_stand_in_the_order_of_their_names(
    m: Seq<(Seq<char>, Seq<char>)>,
    k: Seq<char>,
    v: Seq<char>,
)
    requires
        in_order(m),
    ensures
        in_order(filed(m, k, v)),
        filed(m, k, v).contains((k, v)),
        forall|i: int|
            0 <= i < filed(m, k, v).len() ==> (#[trigger] filed(m, k, v)[i]).0 == k || m.contains(
                filed(m, k, v)[i],
            ),
    decreases m.len(),
{
    let all = filed(m, k, v);
    if m.len() == 0 {
        assert(all[0] == (k, v));
    } else if m[0].0 == k {
        assert(all[0] == (k, v));
        assert forall|i: int, j: int| 0 <= i < j < all.len() implies before(
            (#[trigger] all[i]).0,
            (#[trigger] all[j]).0,
        ) by {
            assert(all[j] == m[j]);
            assert(all[i].0 == m[i].0);
        }
        assert forall|i: int| 0 <= i < all.len() implies (#[trigger] all[i]).0 == k || m.contains(
            all[i],
        ) by {
            if i > 0 {
                assert(all[i] == m[i]);
            }
        }
    } else if before(k, m[0].0) {
        assert(all[0] == (k, v));
        assert forall|i: int, j: int| 0 <= i < j < all.len() implies before(
            (#[trigger] all[i]).0,
            (#[trigger] all[j]).0,
        ) by {
            assert(all[j] == m[j - 1]);
            if i > 0 {
                assert(all[i] == m[i - 1]);
            } else if j > 1 {
                assert(before(m[0].0, m[j - 1].0));
                lemma_before_transitive(k, m[0].0, m[j - 1].0);
            }
        }
        assert forall|i: int| 0 <= i < all.len() implies (#[trigger] all[i]).0 == k || m.contains(
            all[i],
        ) by {
            if i > 0 {
                assert(all[i] == m[i - 1]);
            }
        }
    } else {
        let rest = m.drop_first();
        assert forall|i: int, j: int| 0 <= i < j < rest.len() implies before(
            (#[trigger] rest[i]).0,
            (#[trigger] rest[j]).0,
        ) by {
            assert(rest[i] == m[i + 1] && rest[j] == m[j + 1]);
        }
        law_figures_stand_in_the_order_of_their_names(rest, k, v);
        let tail = filed(rest, k, v);
        lemma_before_total(k, m[0].0);
        assert forall|i: int, j: int| 0 <= i < j < all.len() implies before(
            (#[trigger] all[i]).0,
            (#[trigger] all[j]).0,
        ) by {
            assert(all[j] == tail[j - 1]);
            if i > 0 {
                assert(all[i] == tail[i - 1]);
            } else if tail[j - 1].0 != k {
                assert(rest.contains(tail[j - 1]));
                let x = choose|x: int| 0 <= x < rest.len() && rest[x] == tail[j - 1];
                assert(m[x + 1] == tail[j - 1]);
            }
        }
        assert forall|i: int| 0 <= i < all.len() implies (#[trigger] all[i]).0 == k || m.contains(
            all[i],
        ) by {
            if i > 0 {
                assert(all[i] == tail[i - 1]);
                if tail[i - 1].0 != k {
                    let x = choose|x: int| 0 <= x < rest.len() && rest[x] == tail[i - 1];
                    assert(m[x + 1] == all[i]);
                }
            } else {
                assert(all[0] == m[0]);
            }
        }
        let y = choose|y: int| 0 <= y < tail.len() && tail[y] == (k, v);
        assert(all[y + 1] == (k, v));
    }
}

} // verus!
