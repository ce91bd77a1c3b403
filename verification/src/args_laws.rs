//! That every flag does what it says and nothing else does it.
use crate::args::{
    applied, first_of, flag_of, last_of, rsplit_once, split_once, stepped, ArgError, ArgsView,
    FeedView, FilesView, Flag, ModesView, OrdersView, PolicyView,
};
use crate::text::{as_signed, as_unsigned};
use crate::venue::Side;
use vstd::prelude::*;

verus! {

/// Every flag goes by its own name.
pub proof fn law_every_flag_has_its_name()
    ensures
        flag_of("--socket"@) == Some(Flag::Socket),
        flag_of("--bench-tape"@) == Some(Flag::BenchTape),
        flag_of("--replay-wal"@) == Some(Flag::ReplayWal),
        flag_of("--wal"@) == Some(Flag::Wal),
        flag_of("--out"@) == Some(Flag::Out),
        flag_of("--apr-asof"@) == Some(Flag::AprAsof),
        flag_of("--toxgate"@) == Some(Flag::Toxgate),
        flag_of("--registry"@) == Some(Flag::Registry),
        flag_of("--tradable"@) == Some(Flag::Tradable),
        flag_of("--health"@) == Some(Flag::Health),
        flag_of("--ledger"@) == Some(Flag::Ledger),
        flag_of("--hedge-retry-s"@) == Some(Flag::HedgeRetryS),
        flag_of("--hedge-max-slip"@) == Some(Flag::HedgeMaxSlip),
        flag_of("--hedge-alarm-s"@) == Some(Flag::HedgeAlarmS),
        flag_of("--exec-config"@) == Some(Flag::ExecConfig),
        flag_of("--topics"@) == Some(Flag::Topics),
        flag_of("--pace-x"@) == Some(Flag::PaceX),
        flag_of("--kill-file"@) == Some(Flag::KillFile),
        flag_of("--marks"@) == Some(Flag::Marks),
        flag_of("--rate-limit"@) == Some(Flag::RateLimit),
        flag_of("--marks-out"@) == Some(Flag::MarksOut),
        flag_of("--min-apr"@) == Some(Flag::MinApr),
        flag_of("--rel-prefix"@) == Some(Flag::RelPrefix),
        flag_of("--enable-orders"@) == Some(Flag::EnableOrders),
        flag_of("--yes-trade-live"@) == Some(Flag::YesTradeLive),
        flag_of("--sweep-only"@) == Some(Flag::SweepOnly),
        flag_of("--sweep-unscoped"@) == Some(Flag::SweepUnscoped),
        flag_of("--take-take"@) == Some(Flag::TakeTake),
        flag_of("--take-take-detect-only"@) == Some(Flag::TakeTakeDetectOnly),
        flag_of("--unwind-detect-only"@) == Some(Flag::UnwindDetectOnly),
        flag_of("--positions-recon"@) == Some(Flag::PositionsRecon),
        flag_of("--positions-recon-act"@) == Some(Flag::PositionsReconAct),
        flag_of("--positions-recon-act-shadow"@) == Some(Flag::PositionsReconActShadow),
        flag_of("--maker-exit"@) == Some(Flag::MakerExit),
        flag_of("--maker-exit-shadow"@) == Some(Flag::MakerExitShadow),
        flag_of("--cred-suffix"@) == Some(Flag::CredSuffix),
        flag_of("--balance"@) == Some(Flag::Balance),
        flag_of("--suppress"@) == Some(Flag::Suppress),
        flag_of("--max-events"@) == Some(Flag::MaxEvents),
        flag_of("--stats-every"@) == Some(Flag::StatsEvery),
        flag_of("--tt-max-ct-per-rel"@) == Some(Flag::TtMaxCtPerRel),
        flag_of("--tt-max-clip"@) == Some(Flag::TtMaxClip),
{
    reveal_strlit("--socket");
    assert("--socket"@.len() == 8);
    assert("--socket"@[2] == 's');
    reveal_strlit("--bench-tape");
    assert("--bench-tape"@.len() == 12);
    assert("--bench-tape"@[2] == 'b');
    reveal_strlit("--replay-wal");
    assert("--replay-wal"@.len() == 12);
    assert("--replay-wal"@[2] == 'r');
    assert("--replay-wal"@[3] == 'e');
    assert("--replay-wal"@[4] == 'p');
    reveal_strlit("--wal");
    assert("--wal"@.len() == 5);
    assert("--wal"@[2] == 'w');
    reveal_strlit("--out");
    assert("--out"@.len() == 5);
    assert("--out"@[2] == 'o');
    reveal_strlit("--apr-asof");
    assert("--apr-asof"@.len() == 10);
    assert("--apr-asof"@[2] == 'a');
    reveal_strlit("--toxgate");
    assert("--toxgate"@.len() == 9);
    assert("--toxgate"@[2] == 't');
    reveal_strlit("--registry");
    assert("--registry"@.len() == 10);
    assert("--registry"@[2] == 'r');
    reveal_strlit("--tradable");
    assert("--tradable"@.len() == 10);
    assert("--tradable"@[2] == 't');
    reveal_strlit("--health");
    assert("--health"@.len() == 8);
    assert("--health"@[2] == 'h');
    reveal_strlit("--ledger");
    assert("--ledger"@.len() == 8);
    assert("--ledger"@[2] == 'l');
    reveal_strlit("--hedge-retry-s");
    assert("--hedge-retry-s"@.len() == 15);
    assert("--hedge-retry-s"@[2] == 'h');
    assert("--hedge-retry-s"@[8] == 'r');
    reveal_strlit("--hedge-max-slip");
    assert("--hedge-max-slip"@.len() == 16);
    assert("--hedge-max-slip"@[2] == 'h');
    reveal_strlit("--hedge-alarm-s");
    assert("--hedge-alarm-s"@.len() == 15);
    assert("--hedge-alarm-s"@[2] == 'h');
    assert("--hedge-alarm-s"@[8] == 'a');
    reveal_strlit("--exec-config");
    assert("--exec-config"@.len() == 13);
    assert("--exec-config"@[2] == 'e');
    reveal_strlit("--topics");
    assert("--topics"@.len() == 8);
    assert("--topics"@[2] == 't');
    reveal_strlit("--pace-x");
    assert("--pace-x"@.len() == 8);
    assert("--pace-x"@[2] == 'p');
    reveal_strlit("--kill-file");
    assert("--kill-file"@.len() == 11);
    assert("--kill-file"@[2] == 'k');
    reveal_strlit("--marks");
    assert("--marks"@.len() == 7);
    reveal_strlit("--rate-limit");
    assert("--rate-limit"@.len() == 12);
    assert("--rate-limit"@[2] == 'r');
    assert("--rate-limit"@[3] == 'a');
    reveal_strlit("--marks-out");
    assert("--marks-out"@.len() == 11);
    assert("--marks-out"@[2] == 'm');
    reveal_strlit("--min-apr");
    assert("--min-apr"@.len() == 9);
    assert("--min-apr"@[2] == 'm');
    reveal_strlit("--rel-prefix");
    assert("--rel-prefix"@.len() == 12);
    assert("--rel-prefix"@[2] == 'r');
    assert("--rel-prefix"@[3] == 'e');
    assert("--rel-prefix"@[4] == 'l');
    reveal_strlit("--enable-orders");
    assert("--enable-orders"@.len() == 15);
    assert("--enable-orders"@[2] == 'e');
    reveal_strlit("--yes-trade-live");
    assert("--yes-trade-live"@.len() == 16);
    assert("--yes-trade-live"@[2] == 'y');
    reveal_strlit("--sweep-only");
    assert("--sweep-only"@.len() == 12);
    assert("--sweep-only"@[2] == 's');
    reveal_strlit("--sweep-unscoped");
    assert("--sweep-unscoped"@.len() == 16);
    assert("--sweep-unscoped"@[2] == 's');
    reveal_strlit("--take-take");
    assert("--take-take"@.len() == 11);
    assert("--take-take"@[2] == 't');
    reveal_strlit("--take-take-detect-only");
    assert("--take-take-detect-only"@.len() == 23);
    reveal_strlit("--unwind-detect-only");
    assert("--unwind-detect-only"@.len() == 20);
    reveal_strlit("--positions-recon");
    assert("--positions-recon"@.len() == 17);
    reveal_strlit("--positions-recon-act");
    assert("--positions-recon-act"@.len() == 21);
    reveal_strlit("--positions-recon-act-shadow");
    assert("--positions-recon-act-shadow"@.len() == 28);
    reveal_strlit("--maker-exit");
    assert("--maker-exit"@.len() == 12);
    assert("--maker-exit"@[2] == 'm');
    assert("--maker-exit"@[4] == 'k');
    reveal_strlit("--maker-exit-shadow");
    assert("--maker-exit-shadow"@.len() == 19);
    assert("--maker-exit-shadow"@[2] == 'm');
    reveal_strlit("--cred-suffix");
    assert("--cred-suffix"@.len() == 13);
    assert("--cred-suffix"@[2] == 'c');
    reveal_strlit("--balance");
    assert("--balance"@.len() == 9);
    assert("--balance"@[2] == 'b');
    reveal_strlit("--suppress");
    assert("--suppress"@.len() == 10);
    assert("--suppress"@[2] == 's');
    reveal_strlit("--max-events");
    assert("--max-events"@.len() == 12);
    assert("--max-events"@[2] == 'm');
    assert("--max-events"@[4] == 'x');
    reveal_strlit("--stats-every");
    assert("--stats-every"@.len() == 13);
    assert("--stats-every"@[2] == 's');
    reveal_strlit("--tt-max-ct-per-rel");
    assert("--tt-max-ct-per-rel"@.len() == 19);
    assert("--tt-max-ct-per-rel"@[2] == 't');
    reveal_strlit("--tt-max-clip");
    assert("--tt-max-clip"@.len() == 13);
    assert("--tt-max-clip"@[2] == 't');
}

/// A switch turns on what it names and leaves the rest as it was. The one that only
/// cancels turns the order path on too, and the one that only detects its own pass.
pub proof fn law_a_switch_turns_on_what_it_names(
    a: ArgsView,
    next: Option<Seq<char>>,
    at: usize,
)
    ensures
        stepped(a, "--enable-orders"@, next, at) == Ok::<(ArgsView, int), ArgError>(
            ((ArgsView { orders: OrdersView { enable_orders: true, ..a.orders }, ..a }), 1),
        ),
        stepped(a, "--yes-trade-live"@, next, at) == Ok::<(ArgsView, int), ArgError>(
            ((ArgsView { orders: OrdersView { confirm_live: true, ..a.orders }, ..a }), 1),
        ),
        stepped(a, "--sweep-only"@, next, at) == Ok::<(ArgsView, int), ArgError>(
            ((ArgsView { orders: OrdersView { enable_orders: true, sweep_only: true, ..a.orders }, ..a }), 1),
        ),
        stepped(a, "--sweep-unscoped"@, next, at) == Ok::<(ArgsView, int), ArgError>(
            ((ArgsView { orders: OrdersView { sweep_unscoped: true, ..a.orders }, ..a }), 1),
        ),
        stepped(a, "--take-take"@, next, at) == Ok::<(ArgsView, int), ArgError>(
            ((ArgsView { modes: ModesView { take_take: true, ..a.modes }, ..a }), 1),
        ),
        stepped(a, "--take-take-detect-only"@, next, at) == Ok::<(ArgsView, int), ArgError>(
            ((ArgsView { modes: ModesView { take_take: true, tt_detect_only: true, ..a.modes }, ..a }), 1),
        ),
        stepped(a, "--unwind-detect-only"@, next, at) == Ok::<(ArgsView, int), ArgError>(
            ((ArgsView { modes: ModesView { unwind_detect_only: true, ..a.modes }, ..a }), 1),
        ),
        stepped(a, "--positions-recon"@, next, at) == Ok::<(ArgsView, int), ArgError>(
            ((ArgsView { modes: ModesView { positions_recon: true, ..a.modes }, ..a }), 1),
        ),
        stepped(a, "--positions-recon-act"@, next, at) == Ok::<(ArgsView, int), ArgError>(
            ((ArgsView { modes: ModesView { positions_recon_act: true, ..a.modes }, ..a }), 1),
        ),
        stepped(a, "--positions-recon-act-shadow"@, next, at) == Ok::<(ArgsView, int), ArgError>(
            ((ArgsView { modes: ModesView { positions_recon_act_shadow: true, ..a.modes }, ..a }), 1),
        ),
        stepped(a, "--maker-exit"@, next, at) == Ok::<(ArgsView, int), ArgError>(
            ((ArgsView { modes: ModesView { maker_exit: true, ..a.modes }, ..a }), 1),
        ),
        stepped(a, "--maker-exit-shadow"@, next, at) == Ok::<(ArgsView, int), ArgError>(
            ((ArgsView { modes: ModesView { maker_exit_shadow: true, ..a.modes }, ..a }), 1),
        ),
{
    law_every_flag_has_its_name();
}

/// A flag whose value may be missing takes the argument behind it, if there is one.
pub proof fn law_a_value_that_may_be_missing_is_taken(
    a: ArgsView,
    v: Option<Seq<char>>,
    at: usize,
)
    ensures
        stepped(a, "--socket"@, v, at) == Ok::<(ArgsView, int), ArgError>(
            ((ArgsView { feed: FeedView { socket: v, ..a.feed }, ..a }), 2),
        ),
        stepped(a, "--bench-tape"@, v, at) == Ok::<(ArgsView, int), ArgError>(
            ((ArgsView { feed: FeedView { bench_tape: v, ..a.feed }, ..a }), 2),
        ),
        stepped(a, "--replay-wal"@, v, at) == Ok::<(ArgsView, int), ArgError>(
            ((ArgsView { feed: FeedView { replay_wal: v, ..a.feed }, ..a }), 2),
        ),
        stepped(a, "--wal"@, v, at) == Ok::<(ArgsView, int), ArgError>(
            ((ArgsView { feed: FeedView { wal: v, ..a.feed }, ..a }), 2),
        ),
        stepped(a, "--out"@, v, at) == Ok::<(ArgsView, int), ArgError>(
            ((ArgsView { feed: FeedView { out: v, ..a.feed }, ..a }), 2),
        ),
        stepped(a, "--apr-asof"@, v, at) == Ok::<(ArgsView, int), ArgError>(
            ((ArgsView { policy: PolicyView { apr_asof: v, ..a.policy }, ..a }), 2),
        ),
        stepped(a, "--toxgate"@, v, at) == Ok::<(ArgsView, int), ArgError>(
            ((ArgsView { policy: PolicyView { toxgate: v, ..a.policy }, ..a }), 2),
        ),
{
    law_every_flag_has_its_name();
}

/// A flag that wants a value sets it to the argument behind it, and is refused
/// without one.
pub proof fn law_a_value_goes_where_its_flag_says(
    a: ArgsView,
    v: Seq<char>,
    at: usize,
)
    ensures
        stepped(a, "--registry"@, Some(v), at) == Ok::<(ArgsView, int), ArgError>(
            ((ArgsView { files: FilesView { registry: v, ..a.files }, ..a }), 2),
        ),
        stepped(a, "--registry"@, None, at) == Err::<(ArgsView, int), ArgError>(
            ArgError::NoValue { at },
        ),
        stepped(a, "--tradable"@, Some(v), at) == Ok::<(ArgsView, int), ArgError>(
            ((ArgsView { files: FilesView { tradable: v, ..a.files }, ..a }), 2),
        ),
        stepped(a, "--tradable"@, None, at) == Err::<(ArgsView, int), ArgError>(
            ArgError::NoValue { at },
        ),
        stepped(a, "--health"@, Some(v), at) == Ok::<(ArgsView, int), ArgError>(
            ((ArgsView { files: FilesView { health: v, ..a.files }, ..a }), 2),
        ),
        stepped(a, "--health"@, None, at) == Err::<(ArgsView, int), ArgError>(
            ArgError::NoValue { at },
        ),
        stepped(a, "--ledger"@, Some(v), at) == Ok::<(ArgsView, int), ArgError>(
            ((ArgsView { files: FilesView { ledger: v, ..a.files }, ..a }), 2),
        ),
        stepped(a, "--ledger"@, None, at) == Err::<(ArgsView, int), ArgError>(
            ArgError::NoValue { at },
        ),
        stepped(a, "--hedge-retry-s"@, Some(v), at) == Ok::<(ArgsView, int), ArgError>(
            ((ArgsView { policy: PolicyView { hedge_retry_s: v, ..a.policy }, ..a }), 2),
        ),
        stepped(a, "--hedge-retry-s"@, None, at) == Err::<(ArgsView, int), ArgError>(
            ArgError::NoValue { at },
        ),
        stepped(a, "--hedge-max-slip"@, Some(v), at) == Ok::<(ArgsView, int), ArgError>(
            ((ArgsView { policy: PolicyView { hedge_max_slip: v, ..a.policy }, ..a }), 2),
        ),
        stepped(a, "--hedge-max-slip"@, None, at) == Err::<(ArgsView, int), ArgError>(
            ArgError::NoValue { at },
        ),
        stepped(a, "--hedge-alarm-s"@, Some(v), at) == Ok::<(ArgsView, int), ArgError>(
            ((ArgsView { policy: PolicyView { hedge_alarm_s: v, ..a.policy }, ..a }), 2),
        ),
        stepped(a, "--hedge-alarm-s"@, None, at) == Err::<(ArgsView, int), ArgError>(
            ArgError::NoValue { at },
        ),
        stepped(a, "--exec-config"@, Some(v), at) == Ok::<(ArgsView, int), ArgError>(
            ((ArgsView { files: FilesView { exec_yaml: v, ..a.files }, ..a }), 2),
        ),
        stepped(a, "--exec-config"@, None, at) == Err::<(ArgsView, int), ArgError>(
            ArgError::NoValue { at },
        ),
        stepped(a, "--topics"@, Some(v), at) == Ok::<(ArgsView, int), ArgError>(
            ((ArgsView { files: FilesView { topics_yaml: v, ..a.files }, ..a }), 2),
        ),
        stepped(a, "--topics"@, None, at) == Err::<(ArgsView, int), ArgError>(
            ArgError::NoValue { at },
        ),
        stepped(a, "--pace-x"@, Some(v), at) == Ok::<(ArgsView, int), ArgError>(
            ((ArgsView { feed: FeedView { pace_x: v, ..a.feed }, ..a }), 2),
        ),
        stepped(a, "--pace-x"@, None, at) == Err::<(ArgsView, int), ArgError>(
            ArgError::NoValue { at },
        ),
        stepped(a, "--kill-file"@, Some(v), at) == Ok::<(ArgsView, int), ArgError>(
            ((ArgsView { files: FilesView { kill_file: v, ..a.files }, ..a }), 2),
        ),
        stepped(a, "--kill-file"@, None, at) == Err::<(ArgsView, int), ArgError>(
            ArgError::NoValue { at },
        ),
        stepped(a, "--marks"@, Some(v), at) == Ok::<(ArgsView, int), ArgError>(
            ((ArgsView { files: FilesView { marks: v, ..a.files }, ..a }), 2),
        ),
        stepped(a, "--marks"@, None, at) == Err::<(ArgsView, int), ArgError>(
            ArgError::NoValue { at },
        ),
        stepped(a, "--rate-limit"@, Some(v), at) == Ok::<(ArgsView, int), ArgError>(
            ((ArgsView { orders: OrdersView { rate_per_s: Some(v), ..a.orders }, ..a }), 2),
        ),
        stepped(a, "--rate-limit"@, None, at) == Err::<(ArgsView, int), ArgError>(
            ArgError::NoValue { at },
        ),
        stepped(a, "--marks-out"@, Some(v), at) == Ok::<(ArgsView, int), ArgError>(
            ((ArgsView { files: FilesView { marks_out: Some(v), ..a.files }, ..a }), 2),
        ),
        stepped(a, "--marks-out"@, None, at) == Err::<(ArgsView, int), ArgError>(
            ArgError::NoValue { at },
        ),
        stepped(a, "--min-apr"@, Some(v), at) == Ok::<(ArgsView, int), ArgError>(
            ((ArgsView { policy: PolicyView { min_apr: Some(v), ..a.policy }, ..a }), 2),
        ),
        stepped(a, "--min-apr"@, None, at) == Err::<(ArgsView, int), ArgError>(
            ArgError::NoValue { at },
        ),
        stepped(a, "--rel-prefix"@, Some(v), at) == Ok::<(ArgsView, int), ArgError>(
            ((ArgsView { orders: OrdersView { rel_prefixes: a.orders.rel_prefixes.push(v), ..a.orders }, ..a }), 2),
        ),
        stepped(a, "--rel-prefix"@, None, at) == Err::<(ArgsView, int), ArgError>(
            ArgError::NoValue { at },
        ),
{
    law_every_flag_has_its_name();
}

/// A text is split at the first of a character that its front does not hold, and at
/// the last of one that its back does not hold.
pub proof fn law_a_text_is_split_where_it_says(x: Seq<char>, y: Seq<char>, c: char)
    ensures
        !x.contains(c) ==> split_once(x + seq![c] + y, c) == Some((x, y)),
        !y.contains(c) ==> rsplit_once(x + seq![c] + y, c) == Some((x, y)),
        !x.contains(c) ==> split_once(x, c) is None && rsplit_once(x, c) is None,
{
    let s = x + seq![c] + y;
    if !x.contains(c) {
        lemma_first(s, c, x.len() as int);
        lemma_first(x, c, x.len() as int);
        lemma_last(x, c, -1);
        assert(s.take(x.len() as int) =~= x);
        assert(s.skip(x.len() as int + 1) =~= y);
    }
    if !y.contains(c) {
        lemma_last(s, c, x.len() as int);
        assert(s.take(x.len() as int) =~= x);
        assert(s.skip(x.len() as int + 1) =~= y);
    }
}

proof fn lemma_first(s: Seq<char>, c: char, k: int)
    requires
        0 <= k <= s.len(),
        k < s.len() ==> s[k] == c,
        forall|i: int| 0 <= i < k ==> #[trigger] s[i] != c,
    ensures
        first_of(s, c) == k,
    decreases s.len(),
{
    if k > 0 {
        let rest = s.drop_first();
        assert(s[0] != c);
        assert forall|i: int| 0 <= i < k - 1 implies #[trigger] rest[i] != c by {
            assert(rest[i] == s[i + 1]);
        }
        lemma_first(rest, c, k - 1);
    }
}

proof fn lemma_last(s: Seq<char>, c: char, k: int)
    requires
        -1 <= k < s.len(),
        k >= 0 ==> s[k] == c,
        forall|i: int| k < i < s.len() ==> #[trigger] s[i] != c,
    ensures
        last_of(s, c) == k,
    decreases s.len(),
{
    if s.len() > 0 && k < s.len() - 1 {
        let rest = s.drop_last();
        assert(s[s.len() - 1] != c);
        assert forall|i: int| k < i < rest.len() implies #[trigger] rest[i] != c by {
            assert(rest[i] == s[i]);
        }
        lemma_last(rest, c, k);
    }
}

/// A pair is kept under the name before its first equals sign.
pub proof fn law_a_pair_is_kept_under_its_name(
    a: ArgsView,
    k: Seq<char>,
    v: Seq<char>,
    at: usize,
)
    requires
        !k.contains('='),
    ensures
        stepped(a, "--cred-suffix"@, Some(k + seq!['='] + v), at) == Ok::<
            (ArgsView, int),
            ArgError,
        >(
            (
                (ArgsView {
                    orders: OrdersView {
                        cred_suffix: a.orders.cred_suffix.push((k, v)),
                        ..a.orders
                    },
                    ..a
                }),
                2,
            ),
        ),
        stepped(a, "--balance"@, Some(k + seq!['='] + v), at) == Ok::<(ArgsView, int), ArgError>(
            (
                (ArgsView {
                    orders: OrdersView { balances: a.orders.balances.push((k, v)), ..a.orders },
                    ..a
                }),
                2,
            ),
        ),
        stepped(a, "--balance"@, Some(k), at) is Err,
        stepped(a, "--cred-suffix"@, Some(k), at) is Err,
{
    law_every_flag_has_its_name();
    law_a_text_is_split_where_it_says(k, v, '=');
}

/// A side that another owner holds is named by its market, a colon and the side.
pub proof fn law_a_side_is_named_behind_its_market(
    a: ArgsView,
    m: Seq<char>,
    side: Side,
    at: usize,
)
    ensures
        stepped(
            a,
            "--suppress"@,
            Some(
                m + seq![':'] + (match side {
                    Side::Bid => "bid"@,
                    Side::Ask => "ask"@,
                }),
            ),
            at,
        ) == Ok::<(ArgsView, int), ArgError>(
            (
                (ArgsView {
                    orders: OrdersView { suppress: a.orders.suppress.push((m, side)), ..a.orders },
                    ..a
                }),
                2,
            ),
        ),
{
    law_every_flag_has_its_name();
    reveal_strlit("bid");
    reveal_strlit("ask");
    assert("bid"@.len() == 3 && "bid"@[0] == 'b' && "bid"@[1] == 'i' && "bid"@[2] == 'd');
    assert("ask"@.len() == 3 && "ask"@[0] == 'a' && "ask"@[1] == 's' && "ask"@[2] == 'k');
    let t = match side {
        Side::Bid => "bid"@,
        Side::Ask => "ask"@,
    };
    assert(!t.contains(':'));
    law_a_text_is_split_where_it_says(m, t, ':');
}

/// A number goes where its flag says, and a text that is none is refused.
pub proof fn law_a_number_goes_where_its_flag_says(a: ArgsView, v: Seq<char>, at: usize)
    ensures
        as_unsigned(v) matches Some(n) ==> stepped(a, "--max-events"@, Some(v), at) == Ok::<
            (ArgsView, int),
            ArgError,
        >(((ArgsView { feed: FeedView { max_events: n as u64, ..a.feed }, ..a }), 2)),
        as_unsigned(v) matches Some(n) ==> stepped(a, "--stats-every"@, Some(v), at) == Ok::<
            (ArgsView, int),
            ArgError,
        >(((ArgsView { policy: PolicyView { stats_every_s: n as u64, ..a.policy }, ..a }), 2)),
        as_unsigned(v) is None ==> stepped(a, "--max-events"@, Some(v), at) is Err && stepped(
            a,
            "--stats-every"@,
            Some(v),
            at,
        ) is Err,
        as_signed(v) matches Some(n) ==> stepped(a, "--tt-max-ct-per-rel"@, Some(v), at) == Ok::<
            (ArgsView, int),
            ArgError,
        >(((ArgsView { modes: ModesView { tt_max_ct_per_rel: n as i64, ..a.modes }, ..a }), 2)),
        as_signed(v) matches Some(n) ==> stepped(a, "--tt-max-clip"@, Some(v), at) == Ok::<
            (ArgsView, int),
            ArgError,
        >(((ArgsView { modes: ModesView { tt_max_clip: n as i64, ..a.modes }, ..a }), 2)),
        as_signed(v) is None ==> stepped(a, "--tt-max-clip"@, Some(v), at) is Err && stepped(
            a,
            "--tt-max-ct-per-rel"@,
            Some(v),
            at,
        ) is Err,
{
    law_every_flag_has_its_name();
}

/// Arguments are taken one flag after the other: what a flag and its value make of
/// what was asked for before is what the rest is applied to.
pub proof fn law_arguments_are_taken_in_order(
    a: ArgsView,
    argv: Seq<Seq<char>>,
    i: int,
    b: ArgsView,
    used: int,
)
    requires
        0 <= i,
        1 <= used,
        i + used <= argv.len(),
        stepped(
            a,
            argv[i],
            if i + 1 < argv.len() {
                Some(argv[i + 1])
            } else {
                None
            },
            i as usize,
        ) == Ok::<(ArgsView, int), ArgError>((b, used)),
    ensures
        applied(a, argv, i) == applied(b, argv, i + used),
        applied(a, argv, argv.len() as int) == Ok::<ArgsView, ArgError>(a),
{
}

} // verus!
