//! The command line.
use crate::text::{as_signed, as_unsigned, parse_signed, parse_unsigned, same};
use crate::venue::Side;
use vstd::prelude::*;
use vstd::string::StrSliceExecFns;

verus! {

pub open spec fn text_of(s: Option<String>) -> Option<Seq<char>> {
    match s {
        Some(t) => Some(t@),
        None => None,
    }
}

pub open spec fn pairs_of(v: Seq<(String, String)>) -> Seq<(Seq<char>, Seq<char>)> {
    Seq::new(v.len(), |i: int| (v[i].0@, v[i].1@))
}

pub open spec fn names_of(v: Seq<String>) -> Seq<Seq<char>> {
    Seq::new(v.len(), |i: int| v[i]@)
}

pub open spec fn sides_of(v: Seq<(String, Side)>) -> Seq<(Seq<char>, Side)> {
    Seq::new(v.len(), |i: int| (v[i].0@, v[i].1))
}

/// Where events come from and go to. Numbers with a fraction are kept as they were written.
#[derive(Debug)]
pub struct Feed {
    /// The socket of the live feed.
    pub socket: Option<String>,
    /// A tape to run on instead.
    pub bench_tape: Option<String>,
    /// A log to replay instead.
    pub replay_wal: Option<String>,
    /// Where the log is written.
    pub wal: Option<String>,
    pub out: Option<String>,
    pub max_events: u64,
    /// A factor, as written.
    pub pace_x: String,
}

/// The same, as texts.
pub struct FeedView {
    pub socket: Option<Seq<char>>,
    pub bench_tape: Option<Seq<char>>,
    pub replay_wal: Option<Seq<char>>,
    pub wal: Option<Seq<char>>,
    pub out: Option<Seq<char>>,
    pub max_events: u64,
    pub pace_x: Seq<char>,
}

impl View for Feed {
    type V = FeedView;

    open spec fn view(&self) -> FeedView {
        FeedView {
            socket: text_of(self.socket),
            bench_tape: text_of(self.bench_tape),
            replay_wal: text_of(self.replay_wal),
            wal: text_of(self.wal),
            out: text_of(self.out),
            max_events: self.max_events,
            pace_x: self.pace_x@,
        }
    }
}

/// The files that a run reads and writes.
#[derive(Debug)]
pub struct Files {
    pub registry: String,
    /// The allowlist.
    pub tradable: String,
    /// The health file; empty to watch none.
    pub health: String,
    pub ledger: String,
    pub exec_yaml: String,
    pub topics_yaml: String,
    pub kill_file: String,
    pub marks: String,
    pub marks_out: Option<String>,
}

/// The same, as texts.
pub struct FilesView {
    pub registry: Seq<char>,
    pub tradable: Seq<char>,
    pub health: Seq<char>,
    pub ledger: Seq<char>,
    pub exec_yaml: Seq<char>,
    pub topics_yaml: Seq<char>,
    pub kill_file: Seq<char>,
    pub marks: Seq<char>,
    pub marks_out: Option<Seq<char>>,
}

impl View for Files {
    type V = FilesView;

    open spec fn view(&self) -> FilesView {
        FilesView {
            registry: self.registry@,
            tradable: self.tradable@,
            health: self.health@,
            ledger: self.ledger@,
            exec_yaml: self.exec_yaml@,
            topics_yaml: self.topics_yaml@,
            kill_file: self.kill_file@,
            marks: self.marks@,
            marks_out: text_of(self.marks_out),
        }
    }
}

/// What a run may do with orders, and for whom. Numbers with a fraction are kept as they were written.
#[derive(Debug)]
pub struct Orders {
    /// Whether the order path may be used at all.
    pub enable_orders: bool,
    /// Whether it may place.
    pub confirm_live: bool,
    /// Cancel what rests, and stop.
    pub sweep_only: bool,
    /// Cancel other owners' orders too.
    pub sweep_unscoped: bool,
    /// The suffix of the credentials of each venue.
    pub cred_suffix: Vec<(String, String)>,
    /// The cash of each venue, as declared.
    pub balances: Vec<(String, String)>,
    /// Orders a second, as written; by mode where it is not given.
    pub rate_per_s: Option<String>,
    pub rel_prefixes: Vec<String>,
    /// Markets and sides that another owner holds.
    pub suppress: Vec<(String, Side)>,
}

/// The same, as texts.
pub struct OrdersView {
    pub enable_orders: bool,
    pub confirm_live: bool,
    pub sweep_only: bool,
    pub sweep_unscoped: bool,
    pub cred_suffix: Seq<(Seq<char>, Seq<char>)>,
    pub balances: Seq<(Seq<char>, Seq<char>)>,
    pub rate_per_s: Option<Seq<char>>,
    pub rel_prefixes: Seq<Seq<char>>,
    pub suppress: Seq<(Seq<char>, Side)>,
}

impl View for Orders {
    type V = OrdersView;

    open spec fn view(&self) -> OrdersView {
        OrdersView {
            enable_orders: self.enable_orders,
            confirm_live: self.confirm_live,
            sweep_only: self.sweep_only,
            sweep_unscoped: self.sweep_unscoped,
            cred_suffix: pairs_of(self.cred_suffix@),
            balances: pairs_of(self.balances@),
            rate_per_s: text_of(self.rate_per_s),
            rel_prefixes: names_of(self.rel_prefixes@),
            suppress: sides_of(self.suppress@),
        }
    }
}

/// What quotes and hedges are held to. Numbers with a fraction are kept as they were written.
#[derive(Debug)]
pub struct Policy {
    /// A percentage, as written; floating where it is not given.
    pub min_apr: Option<String>,
    pub apr_asof: Option<String>,
    /// The toxicity feed; none where the feature is off.
    pub toxgate: Option<String>,
    /// Seconds, as written.
    pub hedge_retry_s: String,
    pub hedge_max_slip: String,
    /// Seconds, as written.
    pub hedge_alarm_s: String,
    pub stats_every_s: u64,
}

/// The same, as texts.
pub struct PolicyView {
    pub min_apr: Option<Seq<char>>,
    pub apr_asof: Option<Seq<char>>,
    pub toxgate: Option<Seq<char>>,
    pub hedge_retry_s: Seq<char>,
    pub hedge_max_slip: Seq<char>,
    pub hedge_alarm_s: Seq<char>,
    pub stats_every_s: u64,
}

impl View for Policy {
    type V = PolicyView;

    open spec fn view(&self) -> PolicyView {
        PolicyView {
            min_apr: text_of(self.min_apr),
            apr_asof: text_of(self.apr_asof),
            toxgate: text_of(self.toxgate),
            hedge_retry_s: self.hedge_retry_s@,
            hedge_max_slip: self.hedge_max_slip@,
            hedge_alarm_s: self.hedge_alarm_s@,
            stats_every_s: self.stats_every_s,
        }
    }
}

/// The passes that a run makes.
#[derive(Debug)]
pub struct Modes {
    pub take_take: bool,
    pub tt_detect_only: bool,
    pub tt_max_ct_per_rel: i64,
    pub tt_max_clip: i64,
    pub unwind_detect_only: bool,
    pub positions_recon: bool,
    pub positions_recon_act: bool,
    pub positions_recon_act_shadow: bool,
    pub maker_exit: bool,
    pub maker_exit_shadow: bool,
}

/// The same, as texts.
pub struct ModesView {
    pub take_take: bool,
    pub tt_detect_only: bool,
    pub tt_max_ct_per_rel: i64,
    pub tt_max_clip: i64,
    pub unwind_detect_only: bool,
    pub positions_recon: bool,
    pub positions_recon_act: bool,
    pub positions_recon_act_shadow: bool,
    pub maker_exit: bool,
    pub maker_exit_shadow: bool,
}

impl View for Modes {
    type V = ModesView;

    open spec fn view(&self) -> ModesView {
        ModesView {
            take_take: self.take_take,
            tt_detect_only: self.tt_detect_only,
            tt_max_ct_per_rel: self.tt_max_ct_per_rel,
            tt_max_clip: self.tt_max_clip,
            unwind_detect_only: self.unwind_detect_only,
            positions_recon: self.positions_recon,
            positions_recon_act: self.positions_recon_act,
            positions_recon_act_shadow: self.positions_recon_act_shadow,
            maker_exit: self.maker_exit,
            maker_exit_shadow: self.maker_exit_shadow,
        }
    }
}

/// What the command line asks for.
#[derive(Debug)]
pub struct Args {
    pub feed: Feed,
    pub files: Files,
    pub orders: Orders,
    pub policy: Policy,
    pub modes: Modes,
}

/// What the command line asks for, as texts.
pub struct ArgsView {
    pub feed: FeedView,
    pub files: FilesView,
    pub orders: OrdersView,
    pub policy: PolicyView,
    pub modes: ModesView,
}

impl View for Args {
    type V = ArgsView;

    open spec fn view(&self) -> ArgsView {
        ArgsView {
            feed: self.feed@,
            files: self.files@,
            orders: self.orders@,
            policy: self.policy@,
            modes: self.modes@,
        }
    }
}

/// What holds without a command line.
pub open spec fn defaults() -> ArgsView {
    ArgsView {
        feed: FeedView {
            socket: None,
            bench_tape: None,
            replay_wal: None,
            wal: None,
            out: None,
            max_events: 0,
            pace_x: "0.0"@,
        },
        files: FilesView {
            registry: "config/registry.yaml"@,
            tradable: "config/tradable.yaml"@,
            health: "data/health.jsonl"@,
            ledger: "data/exec/trades.jsonl"@,
            exec_yaml: "config/exec.yaml"@,
            topics_yaml: "config/topics.yaml"@,
            kill_file: "data/KILL"@,
            marks: "data/exec/marks.json"@,
            marks_out: None,
        },
        orders: OrdersView {
            enable_orders: false,
            confirm_live: false,
            sweep_only: false,
            sweep_unscoped: false,
            cred_suffix: Seq::empty(),
            balances: Seq::empty(),
            rate_per_s: None,
            rel_prefixes: Seq::empty(),
            suppress: Seq::empty(),
        },
        policy: PolicyView {
            min_apr: None,
            apr_asof: None,
            toxgate: None,
            hedge_retry_s: "5.0"@,
            hedge_max_slip: "0.01"@,
            hedge_alarm_s: "60.0"@,
            stats_every_s: 60,
        },
        modes: ModesView {
            take_take: false,
            tt_detect_only: false,
            tt_max_ct_per_rel: 50,
            tt_max_clip: 20,
            unwind_detect_only: false,
            positions_recon: false,
            positions_recon_act: false,
            positions_recon_act_shadow: false,
            maker_exit: false,
            maker_exit_shadow: false,
        },
    }
}

/// What holds without a command line.
pub fn default_args() -> (r: Args)
    ensures
        r@ == defaults(),
{
    let r: Args = Args {
        feed: Feed {
            socket: None,
            bench_tape: None,
            replay_wal: None,
            wal: None,
            out: None,
            max_events: 0,
            pace_x: "0.0".to_owned(),
        },
        files: Files {
            registry: "config/registry.yaml".to_owned(),
            tradable: "config/tradable.yaml".to_owned(),
            health: "data/health.jsonl".to_owned(),
            ledger: "data/exec/trades.jsonl".to_owned(),
            exec_yaml: "config/exec.yaml".to_owned(),
            topics_yaml: "config/topics.yaml".to_owned(),
            kill_file: "data/KILL".to_owned(),
            marks: "data/exec/marks.json".to_owned(),
            marks_out: None,
        },
        orders: Orders {
            enable_orders: false,
            confirm_live: false,
            sweep_only: false,
            sweep_unscoped: false,
            cred_suffix: Vec::new(),
            balances: Vec::new(),
            rate_per_s: None,
            rel_prefixes: Vec::new(),
            suppress: Vec::new(),
        },
        policy: Policy {
            min_apr: None,
            apr_asof: None,
            toxgate: None,
            hedge_retry_s: "5.0".to_owned(),
            hedge_max_slip: "0.01".to_owned(),
            hedge_alarm_s: "60.0".to_owned(),
            stats_every_s: 60,
        },
        modes: Modes {
            take_take: false,
            tt_detect_only: false,
            tt_max_ct_per_rel: 50,
            tt_max_clip: 20,
            unwind_detect_only: false,
            positions_recon: false,
            positions_recon_act: false,
            positions_recon_act_shadow: false,
            maker_exit: false,
            maker_exit_shadow: false,
        },
    };
    assert(pairs_of(r.orders.cred_suffix@) =~= Seq::empty());
    assert(pairs_of(r.orders.balances@) =~= Seq::empty());
    assert(names_of(r.orders.rel_prefixes@) =~= Seq::empty());
    assert(sides_of(r.orders.suppress@) =~= Seq::empty());
    r
}

/// What is wrong with a command line.
#[derive(Clone, Copy, Debug, PartialEq, Eq, Structural)]
pub enum ArgError {
    /// The argument at this place is not known.
    Unknown { at: usize },
    /// The flag at this place wants a value.
    NoValue { at: usize },
    /// Its value is no pair of texts.
    NoPair { at: usize },
    /// Its value names no side.
    BadSide { at: usize },
    /// Its value is no number.
    NoNumber { at: usize },
    /// Not exactly one source of events, on a run that needs one.
    Sources,
}

/// What a flag takes.
#[derive(Clone, Copy, Debug, PartialEq, Eq, Structural)]
pub enum Kind {
    /// Nothing.
    Switch,
    /// A text, if one follows.
    Maybe,
    /// A text.
    Text,
    /// Two texts with an equals sign between them.
    Pair,
    /// A market and a side with a colon between them.
    MarketSide,
    /// A number that is not negative.
    Count,
    /// A number.
    Number,
}

/// The flags.
#[derive(Clone, Copy, Debug, PartialEq, Eq, Structural)]
pub enum Flag {
    Socket,
    BenchTape,
    ReplayWal,
    Wal,
    Out,
    AprAsof,
    Toxgate,
    Registry,
    Tradable,
    Health,
    Ledger,
    HedgeRetryS,
    HedgeMaxSlip,
    HedgeAlarmS,
    ExecConfig,
    Topics,
    PaceX,
    KillFile,
    Marks,
    RateLimit,
    MarksOut,
    MinApr,
    RelPrefix,
    EnableOrders,
    YesTradeLive,
    SweepOnly,
    SweepUnscoped,
    TakeTake,
    TakeTakeDetectOnly,
    UnwindDetectOnly,
    PositionsRecon,
    PositionsReconAct,
    PositionsReconActShadow,
    MakerExit,
    MakerExitShadow,
    CredSuffix,
    Balance,
    Suppress,
    MaxEvents,
    StatsEvery,
    TtMaxCtPerRel,
    TtMaxClip,
}

/// The flag that a text names.
pub open spec fn flag_of(t: Seq<char>) -> Option<Flag> {
    if t == "--socket"@ {
        Some(Flag::Socket)
    } else if t == "--bench-tape"@ {
        Some(Flag::BenchTape)
    } else if t == "--replay-wal"@ {
        Some(Flag::ReplayWal)
    } else if t == "--wal"@ {
        Some(Flag::Wal)
    } else if t == "--out"@ {
        Some(Flag::Out)
    } else if t == "--apr-asof"@ {
        Some(Flag::AprAsof)
    } else if t == "--toxgate"@ {
        Some(Flag::Toxgate)
    } else if t == "--registry"@ {
        Some(Flag::Registry)
    } else if t == "--tradable"@ {
        Some(Flag::Tradable)
    } else if t == "--health"@ {
        Some(Flag::Health)
    } else if t == "--ledger"@ {
        Some(Flag::Ledger)
    } else if t == "--hedge-retry-s"@ {
        Some(Flag::HedgeRetryS)
    } else if t == "--hedge-max-slip"@ {
        Some(Flag::HedgeMaxSlip)
    } else if t == "--hedge-alarm-s"@ {
        Some(Flag::HedgeAlarmS)
    } else if t == "--exec-config"@ {
        Some(Flag::ExecConfig)
    } else if t == "--topics"@ {
        Some(Flag::Topics)
    } else if t == "--pace-x"@ {
        Some(Flag::PaceX)
    } else if t == "--kill-file"@ {
        Some(Flag::KillFile)
    } else if t == "--marks"@ {
        Some(Flag::Marks)
    } else if t == "--rate-limit"@ {
        Some(Flag::RateLimit)
    } else if t == "--marks-out"@ {
        Some(Flag::MarksOut)
    } else if t == "--min-apr"@ {
        Some(Flag::MinApr)
    } else if t == "--rel-prefix"@ {
        Some(Flag::RelPrefix)
    } else if t == "--enable-orders"@ {
        Some(Flag::EnableOrders)
    } else if t == "--yes-trade-live"@ {
        Some(Flag::YesTradeLive)
    } else if t == "--sweep-only"@ {
        Some(Flag::SweepOnly)
    } else if t == "--sweep-unscoped"@ {
        Some(Flag::SweepUnscoped)
    } else if t == "--take-take"@ {
        Some(Flag::TakeTake)
    } else if t == "--take-take-detect-only"@ {
        Some(Flag::TakeTakeDetectOnly)
    } else if t == "--unwind-detect-only"@ {
        Some(Flag::UnwindDetectOnly)
    } else if t == "--positions-recon"@ {
        Some(Flag::PositionsRecon)
    } else if t == "--positions-recon-act"@ {
        Some(Flag::PositionsReconAct)
    } else if t == "--positions-recon-act-shadow"@ {
        Some(Flag::PositionsReconActShadow)
    } else if t == "--maker-exit"@ {
        Some(Flag::MakerExit)
    } else if t == "--maker-exit-shadow"@ {
        Some(Flag::MakerExitShadow)
    } else if t == "--cred-suffix"@ {
        Some(Flag::CredSuffix)
    } else if t == "--balance"@ {
        Some(Flag::Balance)
    } else if t == "--suppress"@ {
        Some(Flag::Suppress)
    } else if t == "--max-events"@ {
        Some(Flag::MaxEvents)
    } else if t == "--stats-every"@ {
        Some(Flag::StatsEvery)
    } else if t == "--tt-max-ct-per-rel"@ {
        Some(Flag::TtMaxCtPerRel)
    } else if t == "--tt-max-clip"@ {
        Some(Flag::TtMaxClip)
    } else {
        None
    }
}

/// The flag that a text names.
pub fn flag(t: &str) -> (r: Option<Flag>)
    ensures
        r == flag_of(t@),
{
    if same(t, "--socket") {
        Some(Flag::Socket)
    } else if same(t, "--bench-tape") {
        Some(Flag::BenchTape)
    } else if same(t, "--replay-wal") {
        Some(Flag::ReplayWal)
    } else if same(t, "--wal") {
        Some(Flag::Wal)
    } else if same(t, "--out") {
        Some(Flag::Out)
    } else if same(t, "--apr-asof") {
        Some(Flag::AprAsof)
    } else if same(t, "--toxgate") {
        Some(Flag::Toxgate)
    } else if same(t, "--registry") {
        Some(Flag::Registry)
    } else if same(t, "--tradable") {
        Some(Flag::Tradable)
    } else if same(t, "--health") {
        Some(Flag::Health)
    } else if same(t, "--ledger") {
        Some(Flag::Ledger)
    } else if same(t, "--hedge-retry-s") {
        Some(Flag::HedgeRetryS)
    } else if same(t, "--hedge-max-slip") {
        Some(Flag::HedgeMaxSlip)
    } else if same(t, "--hedge-alarm-s") {
        Some(Flag::HedgeAlarmS)
    } else if same(t, "--exec-config") {
        Some(Flag::ExecConfig)
    } else if same(t, "--topics") {
        Some(Flag::Topics)
    } else if same(t, "--pace-x") {
        Some(Flag::PaceX)
    } else if same(t, "--kill-file") {
        Some(Flag::KillFile)
    } else if same(t, "--marks") {
        Some(Flag::Marks)
    } else if same(t, "--rate-limit") {
        Some(Flag::RateLimit)
    } else if same(t, "--marks-out") {
        Some(Flag::MarksOut)
    } else if same(t, "--min-apr") {
        Some(Flag::MinApr)
    } else if same(t, "--rel-prefix") {
        Some(Flag::RelPrefix)
    } else if same(t, "--enable-orders") {
        Some(Flag::EnableOrders)
    } else if same(t, "--yes-trade-live") {
        Some(Flag::YesTradeLive)
    } else if same(t, "--sweep-only") {
        Some(Flag::SweepOnly)
    } else if same(t, "--sweep-unscoped") {
        Some(Flag::SweepUnscoped)
    } else if same(t, "--take-take") {
        Some(Flag::TakeTake)
    } else if same(t, "--take-take-detect-only") {
        Some(Flag::TakeTakeDetectOnly)
    } else if same(t, "--unwind-detect-only") {
        Some(Flag::UnwindDetectOnly)
    } else if same(t, "--positions-recon") {
        Some(Flag::PositionsRecon)
    } else if same(t, "--positions-recon-act") {
        Some(Flag::PositionsReconAct)
    } else if same(t, "--positions-recon-act-shadow") {
        Some(Flag::PositionsReconActShadow)
    } else if same(t, "--maker-exit") {
        Some(Flag::MakerExit)
    } else if same(t, "--maker-exit-shadow") {
        Some(Flag::MakerExitShadow)
    } else if same(t, "--cred-suffix") {
        Some(Flag::CredSuffix)
    } else if same(t, "--balance") {
        Some(Flag::Balance)
    } else if same(t, "--suppress") {
        Some(Flag::Suppress)
    } else if same(t, "--max-events") {
        Some(Flag::MaxEvents)
    } else if same(t, "--stats-every") {
        Some(Flag::StatsEvery)
    } else if same(t, "--tt-max-ct-per-rel") {
        Some(Flag::TtMaxCtPerRel)
    } else if same(t, "--tt-max-clip") {
        Some(Flag::TtMaxClip)
    } else {
        None
    }
}

impl Flag {
    /// What a flag takes.
    pub open spec fn takes(self) -> Kind {
        match self {
            Flag::EnableOrders | Flag::YesTradeLive | Flag::SweepOnly | Flag::SweepUnscoped | Flag::TakeTake | Flag::TakeTakeDetectOnly | Flag::UnwindDetectOnly | Flag::PositionsRecon | Flag::PositionsReconAct | Flag::PositionsReconActShadow | Flag::MakerExit | Flag::MakerExitShadow => Kind::Switch,
            Flag::Socket | Flag::BenchTape | Flag::ReplayWal | Flag::Wal | Flag::Out | Flag::AprAsof | Flag::Toxgate => Kind::Maybe,
            Flag::Registry | Flag::Tradable | Flag::Health | Flag::Ledger | Flag::HedgeRetryS | Flag::HedgeMaxSlip | Flag::HedgeAlarmS | Flag::ExecConfig | Flag::Topics | Flag::PaceX | Flag::KillFile | Flag::Marks | Flag::RateLimit | Flag::MarksOut | Flag::MinApr | Flag::RelPrefix => Kind::Text,
            Flag::CredSuffix | Flag::Balance => Kind::Pair,
            Flag::Suppress => Kind::MarketSide,
            Flag::MaxEvents | Flag::StatsEvery => Kind::Count,
            Flag::TtMaxCtPerRel | Flag::TtMaxClip => Kind::Number,
        }
    }

    /// What a flag takes.
    pub fn kind(self) -> (r: Kind)
        ensures
            r == self.takes(),
    {
        match self {
            Flag::EnableOrders | Flag::YesTradeLive | Flag::SweepOnly | Flag::SweepUnscoped | Flag::TakeTake | Flag::TakeTakeDetectOnly | Flag::UnwindDetectOnly | Flag::PositionsRecon | Flag::PositionsReconAct | Flag::PositionsReconActShadow | Flag::MakerExit | Flag::MakerExitShadow => Kind::Switch,
            Flag::Socket | Flag::BenchTape | Flag::ReplayWal | Flag::Wal | Flag::Out | Flag::AprAsof | Flag::Toxgate => Kind::Maybe,
            Flag::Registry | Flag::Tradable | Flag::Health | Flag::Ledger | Flag::HedgeRetryS | Flag::HedgeMaxSlip | Flag::HedgeAlarmS | Flag::ExecConfig | Flag::Topics | Flag::PaceX | Flag::KillFile | Flag::Marks | Flag::RateLimit | Flag::MarksOut | Flag::MinApr | Flag::RelPrefix => Kind::Text,
            Flag::CredSuffix | Flag::Balance => Kind::Pair,
            Flag::Suppress => Kind::MarketSide,
            Flag::MaxEvents | Flag::StatsEvery => Kind::Count,
            Flag::TtMaxCtPerRel | Flag::TtMaxClip => Kind::Number,
        }
    }
}

/// A switch, applied.
pub open spec fn switched(a: ArgsView, f: Flag) -> ArgsView {
    match f {
        Flag::EnableOrders => ArgsView { orders: OrdersView { enable_orders: true, ..a.orders }, ..a },
        Flag::YesTradeLive => ArgsView { orders: OrdersView { confirm_live: true, ..a.orders }, ..a },
        Flag::SweepOnly => ArgsView { orders: OrdersView { enable_orders: true, sweep_only: true, ..a.orders }, ..a },
        Flag::SweepUnscoped => ArgsView { orders: OrdersView { sweep_unscoped: true, ..a.orders }, ..a },
        Flag::TakeTake => ArgsView { modes: ModesView { take_take: true, ..a.modes }, ..a },
        Flag::TakeTakeDetectOnly => ArgsView { modes: ModesView { take_take: true, tt_detect_only: true, ..a.modes }, ..a },
        Flag::UnwindDetectOnly => ArgsView { modes: ModesView { unwind_detect_only: true, ..a.modes }, ..a },
        Flag::PositionsRecon => ArgsView { modes: ModesView { positions_recon: true, ..a.modes }, ..a },
        Flag::PositionsReconAct => ArgsView { modes: ModesView { positions_recon_act: true, ..a.modes }, ..a },
        Flag::PositionsReconActShadow => ArgsView { modes: ModesView { positions_recon_act_shadow: true, ..a.modes }, ..a },
        Flag::MakerExit => ArgsView { modes: ModesView { maker_exit: true, ..a.modes }, ..a },
        Flag::MakerExitShadow => ArgsView { modes: ModesView { maker_exit_shadow: true, ..a.modes }, ..a },
        _ => a,
    }
}

fn switch(a: Args, f: Flag) -> (r: Args)
    ensures
        r@ == switched(a@, f),
{
    match f {
        Flag::EnableOrders => Args { orders: Orders { enable_orders: true, ..a.orders }, ..a },
        Flag::YesTradeLive => Args { orders: Orders { confirm_live: true, ..a.orders }, ..a },
        Flag::SweepOnly => Args { orders: Orders { enable_orders: true, sweep_only: true, ..a.orders }, ..a },
        Flag::SweepUnscoped => Args { orders: Orders { sweep_unscoped: true, ..a.orders }, ..a },
        Flag::TakeTake => Args { modes: Modes { take_take: true, ..a.modes }, ..a },
        Flag::TakeTakeDetectOnly => Args { modes: Modes { take_take: true, tt_detect_only: true, ..a.modes }, ..a },
        Flag::UnwindDetectOnly => Args { modes: Modes { unwind_detect_only: true, ..a.modes }, ..a },
        Flag::PositionsRecon => Args { modes: Modes { positions_recon: true, ..a.modes }, ..a },
        Flag::PositionsReconAct => Args { modes: Modes { positions_recon_act: true, ..a.modes }, ..a },
        Flag::PositionsReconActShadow => Args { modes: Modes { positions_recon_act_shadow: true, ..a.modes }, ..a },
        Flag::MakerExit => Args { modes: Modes { maker_exit: true, ..a.modes }, ..a },
        Flag::MakerExitShadow => Args { modes: Modes { maker_exit_shadow: true, ..a.modes }, ..a },
        _ => a,
    }
}

/// A text that may be missing, applied.
pub open spec fn given_maybe(a: ArgsView, f: Flag, v: Option<Seq<char>>) -> ArgsView {
    match f {
        Flag::Socket => ArgsView { feed: FeedView { socket: v, ..a.feed }, ..a },
        Flag::BenchTape => ArgsView { feed: FeedView { bench_tape: v, ..a.feed }, ..a },
        Flag::ReplayWal => ArgsView { feed: FeedView { replay_wal: v, ..a.feed }, ..a },
        Flag::Wal => ArgsView { feed: FeedView { wal: v, ..a.feed }, ..a },
        Flag::Out => ArgsView { feed: FeedView { out: v, ..a.feed }, ..a },
        Flag::AprAsof => ArgsView { policy: PolicyView { apr_asof: v, ..a.policy }, ..a },
        Flag::Toxgate => ArgsView { policy: PolicyView { toxgate: v, ..a.policy }, ..a },
        _ => a,
    }
}

fn give_maybe(a: Args, f: Flag, v: Option<String>) -> (r: Args)
    ensures
        r@ == given_maybe(a@, f, text_of(v)),
{
    match f {
        Flag::Socket => Args { feed: Feed { socket: v, ..a.feed }, ..a },
        Flag::BenchTape => Args { feed: Feed { bench_tape: v, ..a.feed }, ..a },
        Flag::ReplayWal => Args { feed: Feed { replay_wal: v, ..a.feed }, ..a },
        Flag::Wal => Args { feed: Feed { wal: v, ..a.feed }, ..a },
        Flag::Out => Args { feed: Feed { out: v, ..a.feed }, ..a },
        Flag::AprAsof => Args { policy: Policy { apr_asof: v, ..a.policy }, ..a },
        Flag::Toxgate => Args { policy: Policy { toxgate: v, ..a.policy }, ..a },
        _ => a,
    }
}

fn with_prefix(a: Args, v: String) -> (r: Args)
    ensures
        r@ == (ArgsView {
            orders: OrdersView { rel_prefixes: a@.orders.rel_prefixes.push(v@), ..a@.orders },
            ..a@
        }),
{
    let mut prefixes: Vec<String> = a.orders.rel_prefixes;
    let ghost was = prefixes@;
    prefixes.push(v);
    assert(names_of(prefixes@) =~= names_of(was).push(v@));
    Args { orders: Orders { rel_prefixes: prefixes, ..a.orders }, ..a }
}

/// A text, applied.
pub open spec fn given(a: ArgsView, f: Flag, v: Seq<char>) -> ArgsView {
    match f {
        Flag::Registry => ArgsView { files: FilesView { registry: v, ..a.files }, ..a },
        Flag::Tradable => ArgsView { files: FilesView { tradable: v, ..a.files }, ..a },
        Flag::Health => ArgsView { files: FilesView { health: v, ..a.files }, ..a },
        Flag::Ledger => ArgsView { files: FilesView { ledger: v, ..a.files }, ..a },
        Flag::HedgeRetryS => ArgsView { policy: PolicyView { hedge_retry_s: v, ..a.policy }, ..a },
        Flag::HedgeMaxSlip => ArgsView { policy: PolicyView { hedge_max_slip: v, ..a.policy }, ..a },
        Flag::HedgeAlarmS => ArgsView { policy: PolicyView { hedge_alarm_s: v, ..a.policy }, ..a },
        Flag::ExecConfig => ArgsView { files: FilesView { exec_yaml: v, ..a.files }, ..a },
        Flag::Topics => ArgsView { files: FilesView { topics_yaml: v, ..a.files }, ..a },
        Flag::PaceX => ArgsView { feed: FeedView { pace_x: v, ..a.feed }, ..a },
        Flag::KillFile => ArgsView { files: FilesView { kill_file: v, ..a.files }, ..a },
        Flag::Marks => ArgsView { files: FilesView { marks: v, ..a.files }, ..a },
        Flag::RateLimit => ArgsView { orders: OrdersView { rate_per_s: Some(v), ..a.orders }, ..a },
        Flag::MarksOut => ArgsView { files: FilesView { marks_out: Some(v), ..a.files }, ..a },
        Flag::MinApr => ArgsView { policy: PolicyView { min_apr: Some(v), ..a.policy }, ..a },
        Flag::RelPrefix => ArgsView { orders: OrdersView { rel_prefixes: a.orders.rel_prefixes.push(v), ..a.orders }, ..a },
        _ => a,
    }
}

fn give(a: Args, f: Flag, v: String) -> (r: Args)
    ensures
        r@ == given(a@, f, v@),
{
    match f {
        Flag::Registry => Args { files: Files { registry: v, ..a.files }, ..a },
        Flag::Tradable => Args { files: Files { tradable: v, ..a.files }, ..a },
        Flag::Health => Args { files: Files { health: v, ..a.files }, ..a },
        Flag::Ledger => Args { files: Files { ledger: v, ..a.files }, ..a },
        Flag::HedgeRetryS => Args { policy: Policy { hedge_retry_s: v, ..a.policy }, ..a },
        Flag::HedgeMaxSlip => Args { policy: Policy { hedge_max_slip: v, ..a.policy }, ..a },
        Flag::HedgeAlarmS => Args { policy: Policy { hedge_alarm_s: v, ..a.policy }, ..a },
        Flag::ExecConfig => Args { files: Files { exec_yaml: v, ..a.files }, ..a },
        Flag::Topics => Args { files: Files { topics_yaml: v, ..a.files }, ..a },
        Flag::PaceX => Args { feed: Feed { pace_x: v, ..a.feed }, ..a },
        Flag::KillFile => Args { files: Files { kill_file: v, ..a.files }, ..a },
        Flag::Marks => Args { files: Files { marks: v, ..a.files }, ..a },
        Flag::RateLimit => Args { orders: Orders { rate_per_s: Some(v), ..a.orders }, ..a },
        Flag::MarksOut => Args { files: Files { marks_out: Some(v), ..a.files }, ..a },
        Flag::MinApr => Args { policy: Policy { min_apr: Some(v), ..a.policy }, ..a },
        Flag::RelPrefix => with_prefix(a, v),
        _ => a,
    }
}

/// A pair of texts, applied.
pub open spec fn given_pair(a: ArgsView, f: Flag, k: Seq<char>, v: Seq<char>) -> ArgsView {
    match f {
        Flag::CredSuffix => ArgsView { orders: OrdersView { cred_suffix: a.orders.cred_suffix.push((k, v)), ..a.orders }, ..a },
        Flag::Balance => ArgsView { orders: OrdersView { balances: a.orders.balances.push((k, v)), ..a.orders }, ..a },
        _ => a,
    }
}

fn give_pair(a: Args, f: Flag, k: String, v: String) -> (r: Args)
    ensures
        r@ == given_pair(a@, f, k@, v@),
{
    match f {
        Flag::CredSuffix => {
            let mut pairs: Vec<(String, String)> = a.orders.cred_suffix;
            let ghost was = pairs@;
            pairs.push((k, v));
            assert(pairs_of(pairs@) =~= pairs_of(was).push((k@, v@)));
            Args { orders: Orders { cred_suffix: pairs, ..a.orders }, ..a }
        },
        Flag::Balance => {
            let mut pairs: Vec<(String, String)> = a.orders.balances;
            let ghost was = pairs@;
            pairs.push((k, v));
            assert(pairs_of(pairs@) =~= pairs_of(was).push((k@, v@)));
            Args { orders: Orders { balances: pairs, ..a.orders }, ..a }
        },
        _ => a,
    }
}

/// A count, applied.
pub open spec fn counted(a: ArgsView, f: Flag, v: u64) -> ArgsView {
    match f {
        Flag::MaxEvents => ArgsView { feed: FeedView { max_events: v, ..a.feed }, ..a },
        Flag::StatsEvery => ArgsView { policy: PolicyView { stats_every_s: v, ..a.policy }, ..a },
        _ => a,
    }
}

fn count(a: Args, f: Flag, v: u64) -> (r: Args)
    ensures
        r@ == counted(a@, f, v),
{
    match f {
        Flag::MaxEvents => Args { feed: Feed { max_events: v, ..a.feed }, ..a },
        Flag::StatsEvery => Args { policy: Policy { stats_every_s: v, ..a.policy }, ..a },
        _ => a,
    }
}

/// A number, applied.
pub open spec fn numbered(a: ArgsView, f: Flag, v: i64) -> ArgsView {
    match f {
        Flag::TtMaxCtPerRel => ArgsView { modes: ModesView { tt_max_ct_per_rel: v, ..a.modes }, ..a },
        Flag::TtMaxClip => ArgsView { modes: ModesView { tt_max_clip: v, ..a.modes }, ..a },
        _ => a,
    }
}

fn enumerate(a: Args, f: Flag, v: i64) -> (r: Args)
    ensures
        r@ == numbered(a@, f, v),
{
    match f {
        Flag::TtMaxCtPerRel => Args { modes: Modes { tt_max_ct_per_rel: v, ..a.modes }, ..a },
        Flag::TtMaxClip => Args { modes: Modes { tt_max_clip: v, ..a.modes }, ..a },
        _ => a,
    }
}

/// The first place of a character, or the length.
pub open spec fn first_of(s: Seq<char>, c: char) -> int
    decreases s.len(),
{
    if s.len() == 0 || s[0] == c {
        0
    } else {
        1 + first_of(s.drop_first(), c)
    }
}

/// The last place of a character, or -1.
pub open spec fn last_of(s: Seq<char>, c: char) -> int
    decreases s.len(),
{
    if s.len() == 0 {
        -1
    } else if s.last() == c {
        s.len() - 1
    } else {
        last_of(s.drop_last(), c)
    }
}

/// A text split where a character first stands.
pub open spec fn split_once(s: Seq<char>, c: char) -> Option<(Seq<char>, Seq<char>)> {
    if first_of(s, c) < s.len() {
        Some((s.take(first_of(s, c)), s.skip(first_of(s, c) + 1)))
    } else {
        None
    }
}

/// A text split where a character last stands.
pub open spec fn rsplit_once(s: Seq<char>, c: char) -> Option<(Seq<char>, Seq<char>)> {
    if last_of(s, c) >= 0 {
        Some((s.take(last_of(s, c)), s.skip(last_of(s, c) + 1)))
    } else {
        None
    }
}

proof fn lemma_first_of(s: Seq<char>, c: char, k: int)
    requires
        0 <= k <= s.len(),
        forall|i: int| 0 <= i < k ==> s[i] != c,
        k < s.len() ==> s[k] == c,
    ensures
        first_of(s, c) == k,
    decreases s.len(),
{
    if k > 0 {
        lemma_first_of(s.drop_first(), c, k - 1);
    }
}

proof fn lemma_last_of(s: Seq<char>, c: char, k: int)
    requires
        -1 <= k < s.len(),
        forall|i: int| k < i < s.len() ==> s[i] != c,
        k >= 0 ==> s[k] == c,
    ensures
        last_of(s, c) == k,
    decreases s.len(),
{
    if s.len() > 0 && k < s.len() - 1 {
        lemma_last_of(s.drop_last(), c, k);
    }
}

fn split_at_first(s: &str, c: char) -> (r: Option<(String, String)>)
    ensures
        match split_once(s@, c) {
            Some((a, b)) => r matches Some((x, y)) && x@ == a && y@ == b,
            None => r is None,
        },
{
    let n: usize = s.unicode_len();
    let mut k: usize = 0;
    while k < n && s.get_char(k) != c
        invariant
            k <= n,
            n == s@.len(),
            forall|i: int| 0 <= i < k ==> s@[i] != c,
        decreases n - k,
    {
        k = k + 1;
    }
    proof {
        lemma_first_of(s@, c, k as int);
    }
    if k == n {
        return None;
    }
    let (a, b): (String, String) = (s.substring_char(0, k).to_owned(), s.substring_char(k + 1, n).to_owned());
    assert(a@ =~= s@.take(k as int));
    assert(b@ =~= s@.skip(k + 1));
    Some((a, b))
}

fn split_at_last(s: &str, c: char) -> (r: Option<(String, String)>)
    ensures
        match rsplit_once(s@, c) {
            Some((a, b)) => r matches Some((x, y)) && x@ == a && y@ == b,
            None => r is None,
        },
{
    let n: usize = s.unicode_len();
    let mut k: usize = n;
    while k > 0 && s.get_char(k - 1) != c
        invariant
            k <= n,
            n == s@.len(),
            forall|i: int| k <= i < n ==> s@[i] != c,
        decreases k,
    {
        k = k - 1;
    }
    proof {
        lemma_last_of(s@, c, k - 1);
    }
    if k == 0 {
        return None;
    }
    let (a, b): (String, String) = (s.substring_char(0, k - 1).to_owned(), s.substring_char(k, n).to_owned());
    assert(a@ =~= s@.take(k - 1));
    assert(b@ =~= s@.skip(k as int));
    Some((a, b))
}

/// The side that a text names.
pub open spec fn side_of(s: Seq<char>) -> Option<Side> {
    if s == "bid"@ {
        Some(Side::Bid)
    } else if s == "ask"@ {
        Some(Side::Ask)
    } else {
        None
    }
}

fn parse_side(s: &str) -> (r: Option<Side>)
    ensures
        r == side_of(s@),
{
    if same(s, "bid") {
        Some(Side::Bid)
    } else if same(s, "ask") {
        Some(Side::Ask)
    } else {
        None
    }
}

/// A side that another owner holds, applied.
pub open spec fn suppressing(a: ArgsView, m: Seq<char>, side: Side) -> ArgsView {
    ArgsView { orders: OrdersView { suppress: a.orders.suppress.push((m, side)), ..a.orders }, ..a }
}

/// One argument, applied with the one that follows it: what is asked for then,
/// and how many arguments were used.
pub open spec fn stepped(a: ArgsView, t: Seq<char>, next: Option<Seq<char>>, at: usize) -> Result<
    (ArgsView, int),
    ArgError,
> {
    match flag_of(t) {
        None => Err(ArgError::Unknown { at }),
        Some(f) => match (f.takes(), next) {
            (Kind::Switch, _) => Ok((switched(a, f), 1)),
            (Kind::Maybe, _) => Ok((given_maybe(a, f, next), 2)),
            (_, None) => Err(ArgError::NoValue { at }),
            (Kind::Text, Some(v)) => Ok((given(a, f, v), 2)),
            (Kind::Pair, Some(v)) => match split_once(v, '=') {
                None => Err(ArgError::NoPair { at }),
                Some((k, x)) => Ok((given_pair(a, f, k, x), 2)),
            },
            (Kind::MarketSide, Some(v)) => match rsplit_once(v, ':') {
                None => Err(ArgError::NoPair { at }),
                Some((m, s)) => match side_of(s) {
                    None => Err(ArgError::BadSide { at }),
                    Some(side) => Ok((suppressing(a, m, side), 2)),
                },
            },
            (Kind::Count, Some(v)) => match as_unsigned(v) {
                None => Err(ArgError::NoNumber { at }),
                Some(n) => Ok((counted(a, f, n as u64), 2)),
            },
            (Kind::Number, Some(v)) => match as_signed(v) {
                None => Err(ArgError::NoNumber { at }),
                Some(n) => Ok((numbered(a, f, n as i64), 2)),
            },
        },
    }
}

/// How many sources of events are given.
pub open spec fn sources(a: ArgsView) -> int {
    (if a.feed.socket is Some {
        1int
    } else {
        0
    }) + (if a.feed.bench_tape is Some {
        1int
    } else {
        0
    }) + (if a.feed.replay_wal is Some {
        1int
    } else {
        0
    })
}

/// Whether the sources of events are in order: exactly one, or none on a run
/// that only cancels.
pub open spec fn sourced(a: ArgsView) -> bool {
    sources(a) == 1 || sources(a) == 0 && a.orders.sweep_only
}

/// What the arguments from the one at `i` make of what was asked for before.
pub open spec fn applied(a: ArgsView, argv: Seq<Seq<char>>, i: int) -> Result<ArgsView, ArgError>
    decreases argv.len() - i,
{
    if i < 0 || i >= argv.len() {
        Ok(a)
    } else {
        let next = if i + 1 < argv.len() {
            Some(argv[i + 1])
        } else {
            None
        };
        match stepped(a, argv[i], next, i as usize) {
            Err(e) => Err(e),
            Ok((b, used)) => if used >= 1 && i + used <= argv.len() {
                applied(b, argv, i + used)
            } else {
                Ok(b)
            },
        }
    }
}

/// What a command line asks for.
pub open spec fn asked_for(argv: Seq<Seq<char>>) -> Result<ArgsView, ArgError> {
    match applied(defaults(), argv, 0) {
        Err(e) => Err(e),
        Ok(a) => if sourced(a) {
            Ok(a)
        } else {
            Err(ArgError::Sources)
        },
    }
}

fn step(a: Args, t: &str, next: Option<&String>, at: usize) -> (r: Result<(Args, usize), ArgError>)
    ensures
        match stepped(
            a@,
            t@,
            match next {
                Some(s) => Some(s@),
                None => None,
            },
            at,
        ) {
            Ok((b, used)) => r matches Ok((x, n)) && x@ == b && n == used && 1 <= used <= 2,
            Err(e) => r matches Err(x) && x == e,
        },
{
    let f: Flag = match flag(t) {
        None => {
            return Err(ArgError::Unknown { at });
        },
        Some(f) => f,
    };
    let k: Kind = f.kind();
    match k {
        Kind::Switch => {
            return Ok((switch(a, f), 1));
        },
        Kind::Maybe => {
            let v: Option<String> = match next {
                Some(s) => Some(s.clone()),
                None => None,
            };
            return Ok((give_maybe(a, f, v), 2));
        },
        _ => {},
    }
    let v: &String = match next {
        None => {
            return Err(ArgError::NoValue { at });
        },
        Some(v) => v,
    };
    match k {
        Kind::Text => Ok((give(a, f, v.clone()), 2)),
        Kind::Pair => match split_at_first(v.as_str(), '=') {
            None => Err(ArgError::NoPair { at }),
            Some((x, y)) => Ok((give_pair(a, f, x, y), 2)),
        },
        Kind::MarketSide => match split_at_last(v.as_str(), ':') {
            None => Err(ArgError::NoPair { at }),
            Some((m, s)) => match parse_side(s.as_str()) {
                None => Err(ArgError::BadSide { at }),
                Some(side) => Ok((suppress(a, m, side), 2)),
            },
        },
        Kind::Count => match parse_unsigned(v.as_str()) {
            None => Err(ArgError::NoNumber { at }),
            Some(n) => Ok((count(a, f, n), 2)),
        },
        _ => match parse_signed(v.as_str()) {
            None => Err(ArgError::NoNumber { at }),
            Some(n) => Ok((enumerate(a, f, n), 2)),
        },
    }
}

fn suppress(a: Args, m: String, side: Side) -> (r: Args)
    ensures
        r@ == suppressing(a@, m@, side),
{
    let mut sides: Vec<(String, Side)> = a.orders.suppress;
    let ghost was = sides@;
    sides.push((m, side));
    assert(sides_of(sides@) =~= sides_of(was).push((m@, side)));
    Args { orders: Orders { suppress: sides, ..a.orders }, ..a }
}

/// Reads a command line, without the name of the program.
pub fn parse_args(argv: &Vec<String>) -> (r: Result<Args, ArgError>)
    ensures
        match asked_for(names_of(argv@)) {
            Ok(a) => r matches Ok(x) && x@ == a,
            Err(e) => r == Err::<Args, ArgError>(e),
        },
{
    let ghost words = names_of(argv@);
    let mut a: Args = default_args();
    let mut i: usize = 0;
    while i < argv.len()
        invariant
            words == names_of(argv@),
            applied(defaults(), words, 0) == applied(a@, words, i as int),
        decreases argv.len() - i,
    {
        let next: Option<&String> = if i < argv.len() - 1 {
            Some(&argv[i + 1])
        } else {
            None
        };
        let used: usize = match step(a, argv[i].as_str(), next, i) {
            Err(e) => {
                return Err(e);
            },
            Ok((b, n)) => {
                a = b;
                n
            },
        };
        if used == 1 || i < argv.len() - 1 {
            i = i + used;
        } else {
            i = argv.len();
        }
    }
    let one: u32 = (if a.feed.socket.is_some() {
        1
    } else {
        0
    }) + (if a.feed.bench_tape.is_some() {
        1
    } else {
        0
    }) + (if a.feed.replay_wal.is_some() {
        1
    } else {
        0
    });
    if one == 1 || (one == 0 && a.orders.sweep_only) {
        Ok(a)
    } else {
        Err(ArgError::Sources)
    }
}

// --------------------------------------------------------------------- laws

/// Without a command line nothing may be placed and every pass that places is
/// off.
pub proof fn law_everything_is_off_by_default()
    ensures
        ({
            let d = defaults();
            &&& !d.orders.enable_orders && !d.orders.confirm_live
            &&& !d.modes.maker_exit && !d.modes.maker_exit_shadow
            &&& !d.modes.positions_recon && !d.modes.positions_recon_act
            &&& !d.modes.positions_recon_act_shadow
            &&& !d.modes.take_take && !d.modes.unwind_detect_only
            &&& d.policy.toxgate is None
        }),
{
}

/// A command line that is accepted names exactly one source of events, but for a
/// run that only cancels, which may do without; and such a run uses the order
/// path.
pub proof fn law_a_run_has_one_source(argv: Seq<Seq<char>>, a: ArgsView)
    requires
        asked_for(argv) == Ok::<ArgsView, ArgError>(a),
    ensures
        sources(a) == 1 || (sources(a) == 0 && a.orders.sweep_only),
        a.orders.sweep_only ==> a.orders.enable_orders,
{
    lemma_sweeps_enable(defaults(), argv, 0);
}

proof fn lemma_sweeps_enable(a: ArgsView, argv: Seq<Seq<char>>, i: int)
    requires
        a.orders.sweep_only ==> a.orders.enable_orders,
    ensures
        applied(a, argv, i) matches Ok(b) ==> (b.orders.sweep_only ==> b.orders.enable_orders),
    decreases argv.len() - i,
{
    if 0 <= i < argv.len() {
        let next = if i + 1 < argv.len() {
            Some(argv[i + 1])
        } else {
            None
        };
        if let Ok((b, used)) = stepped(a, argv[i], next, i as usize) {
            if used >= 1 && i + used <= argv.len() {
                lemma_sweeps_enable(b, argv, i + used);
            }
        }
    }
}

} // verus!
